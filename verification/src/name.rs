//! Destination names and domain suffixes.
//!
//! A name is held as its ASCII bytes. A suffix either matches every name
//! (the root suffix) or matches a name that equals it or ends with it at a
//! label boundary (a dot).

use vstd::prelude::*;
use crate::bytes::{bytes_eq, copy_bytes};

verus! {

/// A named destination: a DNS name with a port.
#[derive(Debug, Hash, PartialEq, Eq)]
pub struct NameAddr {
    pub name: Vec<u8>,
    pub port: u16,
}

/// The mathematical value of a [`NameAddr`].
pub ghost struct NameAddrView {
    pub name: Seq<u8>,
    pub port: u16,
}

impl View for NameAddr {
    type V = NameAddrView;

    open spec fn view(&self) -> NameAddrView {
        NameAddrView { name: self.name@, port: self.port }
    }
}

impl NameAddr {
    pub fn clone_addr(&self) -> (r: NameAddr)
        ensures
            r@ == self@,
    {
        NameAddr { name: copy_bytes(&self.name), port: self.port }
    }
}

/// A domain suffix: either the root (matching every name) or a concrete
/// suffix of labels.
#[derive(Debug, Hash, PartialEq, Eq)]
pub enum Suffix {
    Root,
    Name(Vec<u8>),
}

/// Whether a suffix contains a name: the root contains everything; a concrete
/// suffix contains a name equal to it, or one that ends with it immediately
/// after a dot.
pub open spec fn spec_suffix_contains(s: Suffix, name: Seq<u8>) -> bool {
    match s {
        Suffix::Root => true,
        Suffix::Name(sfx) => {
            ||| name == sfx@
            ||| (name.len() > sfx@.len() && name[name.len() - sfx@.len() - 1] == 46u8
                && name.subrange(name.len() - sfx@.len(), name.len() as int) == sfx@)
        },
    }
}

#[verifier::loop_isolation(false)]
pub fn suffix_contains(s: &Suffix, name: &Vec<u8>) -> (r: bool)
    ensures
        r == spec_suffix_contains(*s, name@),
{
    match s {
        Suffix::Root => true,
        Suffix::Name(sfx) => {
            if bytes_eq(name, sfx) {
                return true;
            }
            if name.len() <= sfx.len() {
                return false;
            }
            let start: usize = name.len() - sfx.len();
            if name[start - 1] != 46u8 {
                return false;
            }
            let mut i: usize = 0;
            while i < sfx.len()
                invariant
                    i <= sfx.len(),
                    forall|k: int| 0 <= k < i ==> name@[start + k] == sfx@[k],
                decreases sfx.len() - i,
            {
                if name[start + i] != sfx[i] {
                    proof {
                        let tail = name@.subrange(start as int, name@.len() as int);
                        assert(tail[i as int] == name@[start + i]);
                        assert(tail != sfx@);
                    }
                    return false;
                }
                i = i + 1;
            }
            proof {
                assert(name@.subrange(start as int, name@.len() as int) =~= sfx@);
            }
            true
        },
    }
}

/// Whether a name matches any suffix of a configured list.
pub open spec fn spec_in_suffixes(suffixes: Seq<Suffix>, name: Seq<u8>) -> bool {
    exists|i: int| 0 <= i < suffixes.len() && spec_suffix_contains(suffixes[i], name)
}

pub fn in_suffixes(suffixes: &Vec<Suffix>, name: &Vec<u8>) -> (r: bool)
    ensures
        r == spec_in_suffixes(suffixes@, name@),
{
    let mut i: usize = 0;
    while i < suffixes.len()
        invariant
            i <= suffixes.len(),
            forall|k: int| 0 <= k < i ==> !spec_suffix_contains(suffixes@[k], name@),
        decreases suffixes.len() - i,
    {
        if suffix_contains(&suffixes[i], name) {
            return true;
        }
        i = i + 1;
    }
    false
}

} // verus!
