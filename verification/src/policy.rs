//! Port policies and connection classification.
//!
//! A connection whose original destination port equals the proxy's own port
//! is diverted to the direct path and never touches policy. Every other
//! connection is classified against the per-port policy table: the port's
//! policy (or the configured default) is attached to an [`Accept`], and a
//! port with no policy under a default-deny configuration is refused.

use vstd::prelude::*;
use crate::net::{IpAddress, Network, SocketAddress, networks_wf, spec_in_networks, in_networks};

verus! {

/// The protocol assumption a policy makes for its port.
#[derive(Clone, Copy, Debug, PartialEq, Eq, Structural)]
pub enum Protocol {
    Detect,
    Opaque,
}

/// The authentication a single authorization demands of a client.
#[derive(Clone, Copy, Debug, PartialEq, Eq, Structural)]
pub enum Authentication {
    Unauthenticated,
    TlsAuthenticated,
}

/// One authorization: an authentication requirement and the source networks
/// it applies to.
#[derive(Debug, PartialEq, Eq)]
pub struct Authorization {
    pub authentication: Authentication,
    pub networks: Vec<Network>,
}

#[verifier::ext_equal]
pub ghost struct AuthorizationView {
    pub authentication: Authentication,
    pub networks: Seq<Network>,
}

impl View for Authorization {
    type V = AuthorizationView;

    open spec fn view(&self) -> AuthorizationView {
        AuthorizationView { authentication: self.authentication, networks: self.networks@ }
    }
}

/// An authorization policy bound to a destination port.
#[derive(Debug, PartialEq, Eq)]
pub struct ServerPolicy {
    pub protocol: Protocol,
    pub authorizations: Vec<Authorization>,
}

#[verifier::ext_equal]
pub ghost struct ServerPolicyView {
    pub protocol: Protocol,
    pub authorizations: Seq<AuthorizationView>,
}

impl View for ServerPolicy {
    type V = ServerPolicyView;

    open spec fn view(&self) -> ServerPolicyView {
        ServerPolicyView {
            protocol: self.protocol,
            authorizations: Seq::new(
                self.authorizations@.len(),
                |i: int| self.authorizations@[i]@,
            ),
        }
    }
}

/// Every network range named by the policy is well formed.
pub open spec fn policy_wf(p: ServerPolicyView) -> bool {
    forall|i: int| 0 <= i < p.authorizations.len() ==> networks_wf(p.authorizations[i].networks)
}

pub fn clone_authorization(a: &Authorization) -> (r: Authorization)
    ensures
        r@ == a@,
{
    let mut networks: Vec<Network> = Vec::new();
    let mut i: usize = 0;
    while i < a.networks.len()
        invariant
            i <= a.networks.len(),
            networks@ == a.networks@.subrange(0, i as int),
        decreases a.networks.len() - i,
    {
        networks.push(a.networks[i]);
        proof {
            assert(networks@ =~= a.networks@.subrange(0, i + 1 as int));
        }
        i = i + 1;
    }
    proof {
        assert(a.networks@.subrange(0, a.networks@.len() as int) =~= a.networks@);
    }
    Authorization { authentication: a.authentication, networks }
}

#[verifier::loop_isolation(false)]
pub fn clone_policy(p: &ServerPolicy) -> (r: ServerPolicy)
    ensures
        r@ == p@,
{
    let mut authorizations: Vec<Authorization> = Vec::new();
    let mut i: usize = 0;
    while i < p.authorizations.len()
        invariant
            i <= p.authorizations.len(),
            authorizations@.len() == i,
            forall|k: int| 0 <= k < i ==> authorizations@[k]@ == p.authorizations@[k]@,
        decreases p.authorizations.len() - i,
    {
        authorizations.push(clone_authorization(&p.authorizations[i]));
        i = i + 1;
    }
    let r = ServerPolicy { protocol: p.protocol, authorizations };
    proof {
        assert(r@.authorizations =~= p@.authorizations);
        assert(r@ =~= p@);
    }
    r
}

/// What a lookup falls back to when a port has no explicit policy.
#[derive(Debug)]
pub enum DefaultPolicy {
    Allow(ServerPolicy),
    Deny,
}

/// The process-wide policy table: per-port policies and the default.
#[derive(Debug)]
pub struct PortPolicies {
    pub by_port: Vec<(u16, ServerPolicy)>,
    pub default: DefaultPolicy,
}

/// The first policy bound to `port` in the table, if any.
pub open spec fn spec_lookup(table: Seq<(u16, ServerPolicy)>, port: u16) -> Option<ServerPolicy>
    decreases table.len(),
{
    if table.len() == 0 {
        Option::None
    } else if table[0].0 == port {
        Option::Some(table[0].1)
    } else {
        spec_lookup(table.subrange(1, table.len() as int), port)
    }
}

/// The policy a connection to `port` is classified against: the port's own
/// policy, or the default-allow policy, or nothing under default-deny.
pub open spec fn spec_allow(pp: PortPolicies, port: u16) -> Option<ServerPolicy> {
    match spec_lookup(pp.by_port@, port) {
        Option::Some(p) => Option::Some(p),
        Option::None => match pp.default {
            DefaultPolicy::Allow(p) => Option::Some(p),
            DefaultPolicy::Deny => Option::None,
        },
    }
}

proof fn lemma_lookup_at(table: Seq<(u16, ServerPolicy)>, port: u16, i: int)
    requires
        0 <= i < table.len(),
        forall|k: int| 0 <= k < i ==> table[k].0 != port,
        table[i].0 == port,
    ensures
        spec_lookup(table, port) == Option::Some(table[i].1),
    decreases i,
{
    if i > 0 {
        let rest = table.subrange(1, table.len() as int);
        assert(rest[i - 1] == table[i]);
        assert(forall|k: int| 0 <= k < i - 1 ==> rest[k] == table[k + 1]);
        lemma_lookup_at(rest, port, i - 1);
    }
}

proof fn lemma_lookup_none(table: Seq<(u16, ServerPolicy)>, port: u16)
    requires
        forall|k: int| 0 <= k < table.len() ==> table[k].0 != port,
    ensures
        spec_lookup(table, port) is None,
    decreases table.len(),
{
    if table.len() > 0 {
        let rest = table.subrange(1, table.len() as int);
        assert(forall|k: int| 0 <= k < rest.len() ==> rest[k] == table[k + 1]);
        lemma_lookup_none(rest, port);
    }
}

/// The error a denied connection surfaces: the port it addressed and the
/// client that opened it.
#[derive(Clone, Copy, Debug, PartialEq, Eq, Structural)]
pub struct Unauthorized {
    pub port: u16,
    pub client: SocketAddress,
}

impl PortPolicies {
    /// Looks up the policy for a connection, or refuses it.
    ///
    /// A connection is refused exactly when its port has no explicit policy
    /// and the default is deny.
    #[verifier::loop_isolation(false)]
    pub fn check_allowed(&self, client: SocketAddress, orig_dst: SocketAddress)
        -> (r: Result<ServerPolicy, Unauthorized>)
        ensures
            (r is Ok) == (spec_allow(*self, orig_dst.port) is Some),
            r matches Ok(p) ==>
                spec_allow(*self, orig_dst.port) matches Some(q) && p@ == q@,
            r matches Err(e) ==> e == (Unauthorized { port: orig_dst.port, client }),
    {
        let mut i: usize = 0;
        while i < self.by_port.len()
            invariant
                i <= self.by_port.len(),
                forall|k: int| 0 <= k < i ==> self.by_port@[k].0 != orig_dst.port,
            decreases self.by_port.len() - i,
        {
            if self.by_port[i].0 == orig_dst.port {
                proof {
                    lemma_lookup_at(self.by_port@, orig_dst.port, i as int);
                }
                return Ok(clone_policy(&self.by_port[i].1));
            }
            i = i + 1;
        }
        proof {
            lemma_lookup_none(self.by_port@, orig_dst.port);
        }
        match &self.default {
            DefaultPolicy::Allow(p) => Ok(clone_policy(p)),
            DefaultPolicy::Deny => Err(Unauthorized { port: orig_dst.port, client }),
        }
    }
}

/// The result of successful classification: the connection's identity and
/// the policy attached to it.
#[derive(Debug, PartialEq, Eq)]
pub struct Accept {
    pub client_addr: SocketAddress,
    pub orig_dst_addr: SocketAddress,
    pub policy: ServerPolicy,
}

#[verifier::ext_equal]
pub ghost struct AcceptView {
    pub client_addr: SocketAddress,
    pub orig_dst_addr: SocketAddress,
    pub policy: ServerPolicyView,
}

impl View for Accept {
    type V = AcceptView;

    open spec fn view(&self) -> AcceptView {
        AcceptView {
            client_addr: self.client_addr,
            orig_dst_addr: self.orig_dst_addr,
            policy: self.policy@,
        }
    }
}

impl Accept {
    /// The destination port the connection addressed.
    pub fn port(&self) -> (r: u16)
        ensures
            r == self.orig_dst_addr.port,
    {
        self.orig_dst_addr.port
    }

    pub fn orig_dst_addr(&self) -> (r: SocketAddress)
        ensures
            r == self.orig_dst_addr,
    {
        self.orig_dst_addr
    }

    pub fn client_addr(&self) -> (r: SocketAddress)
        ensures
            r == self.client_addr,
    {
        self.client_addr
    }

    pub fn policy(&self) -> (r: ServerPolicy)
        ensures
            r@ == self.policy@,
    {
        clone_policy(&self.policy)
    }
}

/// Where classification sends a connection.
#[derive(Debug)]
pub enum Classified {
    /// The connection addressed the proxy's own port: it takes the direct
    /// path and policy is never consulted.
    Direct,
    /// The connection was checked and carries its policy.
    Checked(Accept),
}

/// Classifies an accepted connection.
///
/// A destination port equal to `proxy_port` is diverted to the direct path,
/// whatever the policy configuration says. Any other connection is allowed
/// with the policy `spec_allow` names for its port, or refused.
pub fn classify(
    proxy_port: u16,
    client: SocketAddress,
    orig_dst: SocketAddress,
    policies: &PortPolicies,
) -> (r: Result<Classified, Unauthorized>)
    ensures
        (orig_dst.port == proxy_port) ==> (r matches Ok(c) && c is Direct),
        (r matches Ok(c) && c is Direct) ==> orig_dst.port == proxy_port,
        orig_dst.port != proxy_port ==> match spec_allow(*policies, orig_dst.port) {
            Option::Some(q) => r matches Ok(c) && (c matches Classified::Checked(a)
                && a.client_addr == client
                && a.orig_dst_addr == orig_dst
                && a.policy@ == q@),
            Option::None => r matches Err(e)
                && e == (Unauthorized { port: orig_dst.port, client }),
        },
{
    if orig_dst.port == proxy_port {
        return Ok(Classified::Direct);
    }
    match policies.check_allowed(client, orig_dst) {
        Ok(policy) => Ok(Classified::Checked(Accept {
            client_addr: client,
            orig_dst_addr: orig_dst,
            policy,
        })),
        Err(e) => Err(e),
    }
}

/// Whether a policy authorizes a client at the later, per-connection
/// authorization stage: some authorization must name a network containing
/// the client's address, and its authentication requirement must be met.
pub open spec fn spec_is_authorized(
    p: ServerPolicyView,
    client: IpAddress,
    client_has_identity: bool,
) -> bool {
    exists|i: int| 0 <= i < p.authorizations.len()
        && spec_in_networks(p.authorizations[i].networks, client)
        && (p.authorizations[i].authentication is Unauthenticated || client_has_identity)
}

#[verifier::loop_isolation(false)]
pub fn is_authorized(p: &ServerPolicy, client: IpAddress, client_has_identity: bool) -> (r: bool)
    requires
        policy_wf(p@),
    ensures
        r == spec_is_authorized(p@, client, client_has_identity),
{
    let mut i: usize = 0;
    while i < p.authorizations.len()
        invariant
            i <= p.authorizations.len(),
            forall|k: int| 0 <= k < i ==> !(
                spec_in_networks(p@.authorizations[k].networks, client)
                && (p@.authorizations[k].authentication is Unauthenticated
                    || client_has_identity)
            ),
        decreases p.authorizations.len() - i,
    {
        let a = &p.authorizations[i];
        proof {
            assert(p@.authorizations[i as int] == a@);
        }
        let met = match a.authentication {
            Authentication::Unauthenticated => true,
            Authentication::TlsAuthenticated => client_has_identity,
        };
        if met && in_networks(&a.networks, &client) {
            return true;
        }
        i = i + 1;
    }
    false
}

/// A connection to a port with a configured policy holding an authorization
/// with unauthenticated access and a network containing the client is
/// classified successfully, the attached policy is the looked-up one, and
/// that policy authorizes the client even without an identity.
pub proof fn lemma_unauthenticated_policy_allows(
    pp: PortPolicies,
    port: u16,
    client: IpAddress,
    i: int,
)
    requires
        spec_lookup(pp.by_port@, port) is Some,
        0 <= i < spec_lookup(pp.by_port@, port)->0@.authorizations.len(),
        spec_lookup(pp.by_port@, port)->0@.authorizations[i].authentication
            is Unauthenticated,
        spec_in_networks(spec_lookup(pp.by_port@, port)->0@.authorizations[i].networks, client),
    ensures
        spec_allow(pp, port) == spec_lookup(pp.by_port@, port),
        spec_is_authorized(spec_allow(pp, port)->0@, client, false),
{
}

/// Under default-deny, a port with no explicit policy is allowed nothing:
/// classification of such a connection can only fail, and nothing downstream
/// of classification is ever built for it.
pub proof fn lemma_default_deny(pp: PortPolicies, port: u16)
    requires
        pp.default is Deny,
        forall|k: int| 0 <= k < pp.by_port@.len() ==> pp.by_port@[k].0 != port,
    ensures
        spec_allow(pp, port) is None,
{
    lemma_lookup_none(pp.by_port@, port);
}

} // verus!
