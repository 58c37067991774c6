//! Ingress-mode target extraction, discovery gate and routing outcome.
//!
//! For each HTTP request on an accepted connection, a routing target is
//! derived from the `l5d-dst-override` header: absent, the request is
//! forwarded to the connection's original destination; present, it must
//! parse as `host[:port]` (port 80 on omission) or the request fails.
//! Profile discovery is attempted only for override targets whose name lies
//! in the configured profile domains; an in-domain override that yields no
//! usable profile is refused rather than forwarded.

use vstd::prelude::*;
use crate::addr::{Addr, AddrView};
use crate::bytes::{bytes_eq, copy_bytes, copy_prefix};
use crate::name::{NameAddr, NameAddrView, Suffix, spec_in_suffixes, in_suffixes};
use crate::net::SocketAddress;

verus! {

/// The negotiated HTTP protocol version.
#[derive(Clone, Copy, Debug, Hash, PartialEq, Eq, Structural)]
pub enum Version {
    Http1,
    H2,
}

/// The destination a request is routed to: the connection's original
/// destination, or the destination named by the override header.
#[derive(Debug, Hash, PartialEq, Eq)]
pub enum Target {
    Forward(SocketAddress),
    Override(NameAddr),
}

#[verifier::ext_equal]
pub ghost enum TargetView {
    Forward(SocketAddress),
    Override(NameAddrView),
}

impl View for Target {
    type V = TargetView;

    open spec fn view(&self) -> TargetView {
        match self {
            Target::Forward(sa) => TargetView::Forward(*sa),
            Target::Override(na) => TargetView::Override(na@),
        }
    }
}

impl Target {
    pub fn clone_target(&self) -> (r: Target)
        ensures
            r@ == self@,
    {
        match self {
            Target::Forward(sa) => Target::Forward(*sa),
            Target::Override(na) => Target::Override(na.clone_addr()),
        }
    }
}

/// A routing key: the target together with the protocol version. Both parts
/// distinguish cache entries.
#[derive(Debug, Hash, PartialEq, Eq)]
pub struct Http {
    pub target: Target,
    pub version: Version,
}

#[verifier::ext_equal]
pub ghost struct HttpView {
    pub target: TargetView,
    pub version: Version,
}

impl View for Http {
    type V = HttpView;

    open spec fn view(&self) -> HttpView {
        HttpView { target: self.target@, version: self.version }
    }
}

impl Http {
    pub fn clone_key(&self) -> (r: Http)
        ensures
            r@ == self@,
    {
        Http { target: self.target.clone_target(), version: self.version }
    }

    /// Key equality, as the router's cache decides it.
    pub fn key_eq(&self, other: &Http) -> (r: bool)
        ensures
            r == (self@ == other@),
    {
        if !(match (&self.version, &other.version) {
            (Version::Http1, Version::Http1) => true,
            (Version::H2, Version::H2) => true,
            _ => false,
        }) {
            return false;
        }
        match (&self.target, &other.target) {
            (Target::Forward(a), Target::Forward(b)) => a == b,
            (Target::Override(a), Target::Override(b)) => {
                a.port == b.port && bytes_eq(&a.name, &b.name)
            },
            _ => false,
        }
    }
}

/// A request-level failure of ingress handling.
#[derive(Clone, Copy, Debug, PartialEq, Eq, Structural)]
pub enum IngressError {
    /// The detected protocol was not HTTP: ingress is HTTP-only.
    HttpOnly,
    /// The override header was present but is not a valid `host[:port]`.
    InvalidOverride,
    /// The override named an in-domain destination, but no usable profile
    /// could be discovered for it.
    ProfileRequired,
}

// --- override header parsing ---

pub open spec fn is_name_byte(b: u8) -> bool {
    ||| (97 <= b <= 122)  // 'a'..='z'
    ||| (65 <= b <= 90)  // 'A'..='Z'
    ||| (48 <= b <= 57)  // '0'..='9'
    ||| b == 46u8  // '.'
    ||| b == 45u8  // '-'
}

pub open spec fn is_valid_name(s: Seq<u8>) -> bool {
    s.len() > 0 && forall|i: int| 0 <= i < s.len() ==> is_name_byte(s[i])
}

pub open spec fn is_digit(b: u8) -> bool {
    48 <= b <= 57
}

pub open spec fn all_digits(s: Seq<u8>) -> bool {
    forall|i: int| 0 <= i < s.len() ==> is_digit(s[i])
}

/// The number a string of decimal digits denotes.
pub open spec fn dec_val(s: Seq<u8>) -> int
    decreases s.len(),
{
    if s.len() == 0 {
        0
    } else {
        dec_val(s.drop_last()) * 10 + (s.last() - 48)
    }
}

/// A valid port text: nonempty decimal digits denoting at most 65535.
pub open spec fn is_port_text(s: Seq<u8>) -> bool {
    s.len() > 0 && all_digits(s) && dec_val(s) <= 65535
}

/// `i` is the position of the first colon of `s`.
pub open spec fn colon_at(s: Seq<u8>, i: int) -> bool {
    0 <= i < s.len() && s[i] == 58u8 && forall|k: int| 0 <= k < i ==> s[k] != 58u8
}

pub open spec fn has_colon(s: Seq<u8>) -> bool {
    exists|i: int| colon_at(s, i)
}

pub open spec fn the_colon(s: Seq<u8>) -> int {
    choose|i: int| colon_at(s, i)
}

pub proof fn lemma_colon_unique(s: Seq<u8>, i: int, j: int)
    requires
        colon_at(s, i),
        colon_at(s, j),
    ensures
        i == j,
{
    if i < j {
        assert(s[i] != 58u8);
    }
    if j < i {
        assert(s[j] != 58u8);
    }
}

/// A valid override header value: `host` or `host:port`, with a valid name
/// and, when present, a valid port.
pub open spec fn valid_override(s: Seq<u8>) -> bool {
    if has_colon(s) {
        is_valid_name(s.subrange(0, the_colon(s)))
            && is_port_text(s.subrange(the_colon(s) + 1, s.len() as int))
    } else {
        is_valid_name(s)
    }
}

/// The name a valid override denotes.
pub open spec fn override_name(s: Seq<u8>) -> Seq<u8> {
    if has_colon(s) {
        s.subrange(0, the_colon(s))
    } else {
        s
    }
}

/// The port a valid override denotes: the digits after the colon, or 80.
pub open spec fn override_port(s: Seq<u8>) -> u16 {
    if has_colon(s) {
        dec_val(s.subrange(the_colon(s) + 1, s.len() as int)) as u16
    } else {
        80u16
    }
}

/// Position of the first colon, if any.
#[verifier::loop_isolation(false)]
fn find_colon(v: &Vec<u8>) -> (r: Option<usize>)
    ensures
        r matches Some(i) ==> colon_at(v@, i as int),
        r is None ==> !has_colon(v@),
{
    let mut i: usize = 0;
    while i < v.len()
        invariant
            i <= v.len(),
            forall|k: int| 0 <= k < i ==> v@[k] != 58u8,
        decreases v.len() - i,
    {
        if v[i] == 58u8 {
            return Some(i);
        }
        i = i + 1;
    }
    proof {
        assert forall|k: int| !colon_at(v@, k) by {
            if 0 <= k < v@.len() {
                assert(v@[k] != 58u8);
            }
        }
    }
    None
}

/// Checks that the first `end` bytes form a valid name.
#[verifier::loop_isolation(false)]
fn check_name(v: &Vec<u8>, end: usize) -> (r: bool)
    requires
        end <= v.len(),
    ensures
        r == is_valid_name(v@.subrange(0, end as int)),
{
    if end == 0 {
        return false;
    }
    let mut i: usize = 0;
    while i < end
        invariant
            i <= end,
            forall|k: int| 0 <= k < i ==> is_name_byte(v@[k]),
        decreases end - i,
    {
        let b = v[i];
        let ok = (97 <= b && b <= 122) || (65 <= b && b <= 90) || (48 <= b && b <= 57)
            || b == 46 || b == 45;
        if !ok {
            proof {
                assert(v@.subrange(0, end as int)[i as int] == v@[i as int]);
            }
            return false;
        }
        i = i + 1;
    }
    proof {
        assert forall|k: int| 0 <= k < end implies is_name_byte(
            v@.subrange(0, end as int)[k],
        ) by {
            assert(v@.subrange(0, end as int)[k] == v@[k]);
        }
    }
    true
}

/// Parses the digits from `start` to the end as a port number.
#[verifier::loop_isolation(false)]
fn parse_port_from(v: &Vec<u8>, start: usize) -> (r: Option<u16>)
    requires
        start <= v.len(),
    ensures
        (r is Some) == is_port_text(v@.subrange(start as int, v@.len() as int)),
        r matches Some(p) ==> p == dec_val(v@.subrange(start as int, v@.len() as int)),
{
    let ghost whole = v@.subrange(start as int, v@.len() as int);
    if start == v.len() {
        return None;
    }
    let mut i: usize = start;
    let mut val: u32 = 0;
    while i < v.len()
        invariant
            start <= i <= v.len(),
            all_digits(v@.subrange(start as int, i as int)),
            dec_val(v@.subrange(start as int, i as int)) <= 65535 ==> val == dec_val(
                v@.subrange(start as int, i as int),
            ),
            dec_val(v@.subrange(start as int, i as int)) > 65535 ==> val == 65536,
            val <= 65536,
        decreases v.len() - i,
    {
        let b = v[i];
        if !(48 <= b && b <= 57) {
            proof {
                assert(whole[i - start] == v@[i as int]);
            }
            return None;
        }
        proof {
            let prev = v@.subrange(start as int, i as int);
            let next = v@.subrange(start as int, i + 1 as int);
            assert(next.drop_last() =~= prev);
            assert(next.last() == v@[i as int]);
        }
        let digit: u32 = (b - 48) as u32;
        let mut nv: u32 = val * 10 + digit;
        if nv > 65535 {
            nv = 65536;
        }
        val = nv;
        i = i + 1;
    }
    proof {
        assert(v@.subrange(start as int, v@.len() as int) == whole);
    }
    if val > 65535 {
        None
    } else {
        proof {
            let s = whole;
            assert(is_digit(s[0]));
        }
        Some(val as u16)
    }
}

/// Parses an override header value as `host[:port]`, port 80 on omission.
pub fn parse_host_port(v: &Vec<u8>) -> (r: Option<NameAddr>)
    ensures
        (r is Some) == valid_override(v@),
        r matches Some(na) ==> na@.name == override_name(v@) && na@.port == override_port(v@),
{
    match find_colon(v) {
        Some(i) => {
            proof {
                lemma_colon_unique(v@, i as int, the_colon(v@));
            }
            if !check_name(v, i) {
                return None;
            }
            match parse_port_from(v, i + 1) {
                Some(port) => Some(NameAddr { name: copy_prefix(v, i), port }),
                None => None,
            }
        },
        None => {
            if check_name(v, v.len()) {
                proof {
                    assert(v@.subrange(0, v@.len() as int) =~= v@);
                }
                Some(NameAddr { name: copy_bytes(v), port: 80 })
            } else {
                proof {
                    assert(v@.subrange(0, v@.len() as int) =~= v@);
                }
                None
            }
        },
    }
}

/// Derives the routing key for a request: the original destination when no
/// override header is present, the parsed override otherwise; a present but
/// malformed override fails the request.
pub fn extract_target(
    header: Option<&Vec<u8>>,
    orig_dst: SocketAddress,
    version: Version,
) -> (r: Result<Http, IngressError>)
    ensures
        header is None ==> (r matches Ok(h)
            && h@ == (HttpView { target: TargetView::Forward(orig_dst), version })),
        header matches Some(v) ==> (if valid_override(v@) {
            r matches Ok(h) && h@ == (HttpView {
                target: TargetView::Override(
                    NameAddrView { name: override_name(v@), port: override_port(v@) },
                ),
                version,
            })
        } else {
            r matches Err(e) && e is InvalidOverride
        }),
{
    match header {
        None => Ok(Http { target: Target::Forward(orig_dst), version }),
        Some(v) => match parse_host_port(v) {
            Some(na) => Ok(Http { target: Target::Override(na), version }),
            None => Err(IngressError::InvalidOverride),
        },
    }
}

/// Ingress handles HTTP alone: a connection whose detected protocol is not
/// HTTP is refused before any target extraction.
pub fn require_http(detected: Option<Version>) -> (r: Result<Version, IngressError>)
    ensures
        detected matches Some(version) ==> r == Ok::<Version, IngressError>(version),
        detected is None ==> (r matches Err(e) && e is HttpOnly),
{
    match detected {
        Some(version) => Ok(version),
        None => Err(IngressError::HttpOnly),
    }
}

// --- discovery gate ---

/// Discovery is attempted exactly for override targets whose name lies in
/// the configured profile domains.
pub open spec fn spec_should_discover(t: TargetView, domains: Seq<Suffix>) -> bool {
    t matches TargetView::Override(na) && spec_in_suffixes(domains, na.name)
}

pub fn should_discover(target: &Target, domains: &Vec<Suffix>) -> (r: bool)
    ensures
        r == spec_should_discover(target@, domains@),
{
    match target {
        Target::Override(na) => in_suffixes(domains, &na.name),
        Target::Forward(_) => false,
    }
}

/// The address a profile lookup is keyed by: the override's own address,
/// for exactly the targets discovery is attempted for.
pub fn discovery_key(target: &Target, domains: &Vec<Suffix>) -> (r: Option<NameAddr>)
    ensures
        spec_should_discover(target@, domains@) ==> (r matches Some(na)
            && target@ matches TargetView::Override(t) && na@ == t),
        !spec_should_discover(target@, domains@) ==> r is None,
{
    match target {
        Target::Override(na) => {
            if in_suffixes(domains, &na.name) {
                Some(na.clone_addr())
            } else {
                None
            }
        },
        Target::Forward(_) => None,
    }
}

/// A discovered profile: the canonical logical address, when it has one.
#[derive(Debug)]
pub struct Profile {
    pub addr: Option<NameAddr>,
}

/// Why client TLS is absent on an endpoint route.
#[derive(Clone, Copy, Debug, PartialEq, Eq, Structural)]
pub enum NoClientTls {
    IngressWithoutOverride,
}

/// The routing strategy chosen for a request.
#[derive(Debug, PartialEq, Eq)]
pub enum Route {
    /// A direct endpoint route: no load balancing metadata, TLS disabled.
    Endpoint { dest: Addr, version: Version, tls: NoClientTls },
    /// A logical route over the discovered profile's canonical address,
    /// enabling load balancing across discovered endpoints.
    Logical { logical_addr: NameAddr, version: Version },
}

#[verifier::ext_equal]
pub ghost enum RouteView {
    Endpoint { dest: AddrView, version: Version, tls: NoClientTls },
    Logical { logical_addr: NameAddrView, version: Version },
}

impl View for Route {
    type V = RouteView;

    open spec fn view(&self) -> RouteView {
        match self {
            Route::Endpoint { dest, version, tls } => RouteView::Endpoint {
                dest: dest@,
                version: *version,
                tls: *tls,
            },
            Route::Logical { logical_addr, version } => RouteView::Logical {
                logical_addr: logical_addr@,
                version: *version,
            },
        }
    }
}

/// Combines the target, the discovery gate's decision and the discovery
/// outcome into a route.
///
/// A forward target takes an endpoint route to the original destination. An
/// override for which discovery was skipped takes an endpoint route to the
/// override's own address. An override for which discovery was attempted
/// takes a logical route over the profile's canonical address, and fails
/// with `ProfileRequired` when no profile or no canonical address was found.
pub fn route(
    http: Http,
    discover_attempted: bool,
    profile: Option<Profile>,
) -> (r: Result<Route, IngressError>)
    ensures
        http@.target matches TargetView::Forward(sa) ==> (r matches Ok(rt)
            && rt@ == (RouteView::Endpoint {
                dest: AddrView::Socket(sa),
                version: http@.version,
                tls: NoClientTls::IngressWithoutOverride,
            })),
        http@.target matches TargetView::Override(na) ==> (if !discover_attempted {
            r matches Ok(rt) && rt@ == (RouteView::Endpoint {
                dest: AddrView::Name(na),
                version: http@.version,
                tls: NoClientTls::IngressWithoutOverride,
            })
        } else {
            match profile {
                Option::Some(p) => match p.addr {
                    Option::Some(la) => r matches Ok(rt)
                        && rt@ == (RouteView::Logical {
                            logical_addr: la@,
                            version: http@.version,
                        }),
                    Option::None => r matches Err(e) && e is ProfileRequired,
                },
                Option::None => r matches Err(e) && e is ProfileRequired,
            }
        }),
{
    let Http { target, version } = http;
    match target {
        Target::Forward(sa) => Ok(Route::Endpoint {
            dest: Addr::Socket(sa),
            version,
            tls: NoClientTls::IngressWithoutOverride,
        }),
        Target::Override(na) => {
            if !discover_attempted {
                return Ok(Route::Endpoint {
                    dest: Addr::Name(na),
                    version,
                    tls: NoClientTls::IngressWithoutOverride,
                });
            }
            match profile {
                Some(p) => match p.addr {
                    Some(la) => Ok(Route::Logical { logical_addr: la, version }),
                    None => Err(IngressError::ProfileRequired),
                },
                None => Err(IngressError::ProfileRequired),
            }
        },
    }
}

/// An override target whose name is outside all configured profile domains
/// skips discovery, and is then routed as if forwarded — but to the
/// override's own address, not the connection's original destination.
pub proof fn lemma_out_of_domain_override_skips_discovery(
    t: TargetView,
    domains: Seq<Suffix>,
)
    requires
        t matches TargetView::Override(na) && !spec_in_suffixes(domains, na.name),
    ensures
        !spec_should_discover(t, domains),
{
}

// --- header hygiene ---

/// One request header.
#[derive(Debug, PartialEq, Eq)]
pub struct Header {
    pub name: Vec<u8>,
    pub value: Vec<u8>,
}

#[verifier::ext_equal]
pub ghost struct HeaderView {
    pub name: Seq<u8>,
    pub value: Seq<u8>,
}

impl View for Header {
    type V = HeaderView;

    open spec fn view(&self) -> HeaderView {
        HeaderView { name: self.name@, value: self.value@ }
    }
}

/// The bytes of the override header's name, `l5d-dst-override`.
pub open spec fn override_header_name() -> Seq<u8> {
    seq![
        108u8, 53u8, 100u8, 45u8, 100u8, 115u8, 116u8, 45u8, 111u8, 118u8, 101u8, 114u8,
        114u8, 105u8, 100u8, 101u8,
    ]
}

/// The override header's name, `l5d-dst-override`, as a byte vector.
pub fn dst_override_header() -> (r: Vec<u8>)
    ensures
        r@ == override_header_name(),
{
    let mut r: Vec<u8> = Vec::new();
    r.push(108);
    r.push(53);
    r.push(100);
    r.push(45);
    r.push(100);
    r.push(115);
    r.push(116);
    r.push(45);
    r.push(111);
    r.push(118);
    r.push(101);
    r.push(114);
    r.push(114);
    r.push(105);
    r.push(100);
    r.push(101);
    proof {
        assert(r@ =~= override_header_name());
    }
    r
}

pub open spec fn header_views(hs: Seq<Header>) -> Seq<HeaderView> {
    Seq::new(hs.len(), |i: int| hs[i]@)
}

/// The position of the first override header, if any.
#[verifier::loop_isolation(false)]
pub fn find_override_header(headers: &Vec<Header>) -> (r: Option<usize>)
    ensures
        r matches Some(i) ==> (i < headers@.len() && headers@[i as int]@.name
            == override_header_name() && forall|k: int|
            0 <= k < i ==> headers@[k]@.name != override_header_name()),
        r is None ==> forall|k: int|
            0 <= k < headers@.len() ==> headers@[k]@.name != override_header_name(),
{
    let wanted = dst_override_header();
    let mut i: usize = 0;
    while i < headers.len()
        invariant
            i <= headers.len(),
            wanted@ == override_header_name(),
            forall|k: int| 0 <= k < i ==> headers@[k]@.name != override_header_name(),
        decreases headers.len() - i,
    {
        if bytes_eq(&headers[i].name, &wanted) {
            return Some(i);
        }
        i = i + 1;
    }
    None
}

/// The headers that remain once every override header is removed, in order.
pub open spec fn spec_strip(hs: Seq<HeaderView>) -> Seq<HeaderView>
    decreases hs.len(),
{
    if hs.len() == 0 {
        Seq::empty()
    } else if hs[0].name == override_header_name() {
        spec_strip(hs.subrange(1, hs.len() as int))
    } else {
        seq![hs[0]] + spec_strip(hs.subrange(1, hs.len() as int))
    }
}

/// No override header survives stripping: downstream logic never observes
/// proxy-routing metadata as application data.
pub proof fn lemma_strip_removes_override(hs: Seq<HeaderView>)
    ensures
        forall|i: int| 0 <= i < spec_strip(hs).len() ==> spec_strip(hs)[i].name
            != override_header_name(),
    decreases hs.len(),
{
    if hs.len() > 0 {
        let rest = hs.subrange(1, hs.len() as int);
        lemma_strip_removes_override(rest);
        assert forall|i: int| 0 <= i < spec_strip(hs).len() implies spec_strip(
            hs,
        )[i].name != override_header_name() by {
            if hs[0].name == override_header_name() {
                assert(spec_strip(hs) == spec_strip(rest));
                assert(spec_strip(rest)[i].name != override_header_name());
            } else if i == 0 {
                assert(spec_strip(hs)[0] == hs[0]);
            } else {
                assert(spec_strip(hs)[i] == spec_strip(rest)[i - 1]);
                assert(spec_strip(rest)[i - 1].name != override_header_name());
            }
        }
    }
}

/// Every other header survives stripping.
pub proof fn lemma_strip_keeps_other_headers(hs: Seq<HeaderView>)
    ensures
        forall|i: int| 0 <= i < hs.len() && hs[i].name != override_header_name()
            ==> spec_strip(hs).contains(#[trigger] hs[i]),
    decreases hs.len(),
{
    if hs.len() > 0 {
        let rest = hs.subrange(1, hs.len() as int);
        lemma_strip_keeps_other_headers(rest);
        assert forall|i: int| 0 <= i < hs.len() && hs[i].name != override_header_name()
            implies spec_strip(hs).contains(hs[i]) by {
            if i == 0 {
                assert(spec_strip(hs)[0] == hs[0]);
            } else {
                assert(rest[i - 1] == hs[i]);
                assert(spec_strip(rest).contains(rest[i - 1]));
                let j = choose|j: int| 0 <= j < spec_strip(rest).len() && spec_strip(
                    rest,
                )[j] == rest[i - 1];
                if hs[0].name == override_header_name() {
                    assert(spec_strip(hs)[j] == hs[i]);
                } else {
                    assert(spec_strip(hs)[j + 1] == hs[i]);
                }
            }
        }
    }
}

/// Removes every override header before a request reaches the constructed
/// unit, keeping all other headers in order.
#[verifier::loop_isolation(false)]
pub fn strip_override_header(headers: Vec<Header>) -> (r: Vec<Header>)
    ensures
        header_views(r@) == spec_strip(header_views(headers@)),
{
    let ghost orig = header_views(headers@);
    let wanted = dst_override_header();
    let mut rest = headers;
    let mut out: Vec<Header> = Vec::new();
    while rest.len() > 0
        invariant
            wanted@ == override_header_name(),
            spec_strip(orig) == header_views(out@) + spec_strip(header_views(rest@)),
        decreases rest.len(),
    {
        let ghost before = header_views(rest@);
        let h = rest.remove(0);
        proof {
            assert(header_views(rest@) =~= before.subrange(1, before.len() as int));
            assert(before[0] == h@);
        }
        if !bytes_eq(&h.name, &wanted) {
            let ghost out_before = header_views(out@);
            out.push(h);
            proof {
                assert(header_views(out@) =~= out_before + seq![h@]);
                assert(out_before + seq![h@] + spec_strip(header_views(rest@))
                    =~= out_before + (seq![h@] + spec_strip(header_views(rest@))));
            }
        }
    }
    proof {
        assert(header_views(rest@) =~= Seq::<HeaderView>::empty());
        assert(spec_strip(header_views(rest@)) =~= Seq::<HeaderView>::empty());
        assert(header_views(out@) + Seq::<HeaderView>::empty() =~= header_views(out@));
    }
    out
}

} // verus!
