//! A destination address: a name with a port, or a socket address.

use vstd::prelude::*;
use crate::name::{NameAddr, NameAddrView};
use crate::net::SocketAddress;

verus! {

/// A resolvable destination, either named or concrete.
#[derive(Debug, Hash, PartialEq, Eq)]
pub enum Addr {
    Name(NameAddr),
    Socket(SocketAddress),
}

#[verifier::ext_equal]
pub ghost enum AddrView {
    Name(NameAddrView),
    Socket(SocketAddress),
}

impl View for Addr {
    type V = AddrView;

    open spec fn view(&self) -> AddrView {
        match self {
            Addr::Name(na) => AddrView::Name(na@),
            Addr::Socket(sa) => AddrView::Socket(*sa),
        }
    }
}

impl Addr {
    pub fn clone_addr(&self) -> (r: Addr)
        ensures
            r@ == self@,
    {
        match self {
            Addr::Name(na) => Addr::Name(na.clone_addr()),
            Addr::Socket(sa) => Addr::Socket(*sa),
        }
    }
}

} // verus!
