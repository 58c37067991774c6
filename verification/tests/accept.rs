use proxy_decision::net::{IpAddress, Network, SocketAddress};
use proxy_decision::policy::{
    classify, is_authorized, Authentication, Authorization, Classified, DefaultPolicy,
    PortPolicies, Protocol, ServerPolicy, Unauthorized,
};

fn client() -> SocketAddress {
    SocketAddress { ip: IpAddress::V4(0xC0000203), port: 54321 }
}

fn dst(port: u16) -> SocketAddress {
    SocketAddress { ip: IpAddress::V4(0xC0000202), port }
}

fn allow_unauthenticated() -> ServerPolicy {
    ServerPolicy {
        protocol: Protocol::Opaque,
        authorizations: vec![Authorization {
            authentication: Authentication::Unauthenticated,
            networks: vec![Network::V4 { addr: 0, prefix: 0 }],
        }],
    }
}

#[test]
fn default_allow() {
    let policies = PortPolicies {
        by_port: Vec::new(),
        default: DefaultPolicy::Allow(allow_unauthenticated()),
    };
    match classify(999, client(), dst(1000), &policies) {
        Ok(Classified::Direct) => panic!("direct stack must not be built"),
        Ok(Classified::Checked(accept)) => {
            assert_eq!(accept.port(), 1000);
            assert_eq!(accept.orig_dst_addr(), dst(1000));
            assert_eq!(accept.client_addr(), client());
            assert_eq!(accept.policy().protocol, Protocol::Opaque);
            assert_eq!(accept.policy(), allow_unauthenticated());
        }
        Err(_) => panic!("should succeed"),
    }
}

#[test]
fn default_deny() {
    let policies = PortPolicies { by_port: Vec::new(), default: DefaultPolicy::Deny };
    match classify(999, client(), dst(1000), &policies) {
        Ok(Classified::Direct) => panic!("direct stack must not be built"),
        Ok(Classified::Checked(_)) => panic!("should be denied"),
        Err(e) => assert_eq!(e, Unauthorized { port: 1000, client: client() }),
    }
}

#[test]
fn direct() {
    let policies = PortPolicies { by_port: Vec::new(), default: DefaultPolicy::Deny };
    match classify(999, client(), dst(999), &policies) {
        Ok(Classified::Direct) => {}
        Ok(Classified::Checked(_)) => panic!("detect stack must not be built"),
        Err(_) => panic!("should succeed"),
    }
}

#[test]
fn direct_ignores_policy_configuration() {
    let policies = PortPolicies {
        by_port: vec![(999, allow_unauthenticated())],
        default: DefaultPolicy::Allow(allow_unauthenticated()),
    };
    match classify(999, client(), dst(999), &policies) {
        Ok(Classified::Direct) => {}
        _ => panic!("proxy-port connections must take the direct path"),
    }
}

#[test]
fn explicit_port_policy_wins_over_default_deny() {
    let policies = PortPolicies {
        by_port: vec![(8080, allow_unauthenticated())],
        default: DefaultPolicy::Deny,
    };
    match classify(999, client(), dst(8080), &policies) {
        Ok(Classified::Checked(accept)) => {
            assert_eq!(accept.policy.authorizations.len(), 1);
        }
        _ => panic!("configured port must be allowed"),
    }
}

#[test]
fn denial_carries_port_and_client() {
    let policies = PortPolicies { by_port: Vec::new(), default: DefaultPolicy::Deny };
    let err = match classify(999, client(), dst(4143), &policies) {
        Err(e) => e,
        _ => panic!("should be denied"),
    };
    assert_eq!(err.port, 4143);
    assert_eq!(err.client, client());
}

#[test]
fn authorization_requires_matching_network() {
    let policy = ServerPolicy {
        protocol: Protocol::Detect,
        authorizations: vec![Authorization {
            authentication: Authentication::Unauthenticated,
            // 10.0.0.0/8
            networks: vec![Network::V4 { addr: 0x0A000000, prefix: 8 }],
        }],
    };
    assert!(is_authorized(&policy, IpAddress::V4(0x0A010203), false));
    assert!(!is_authorized(&policy, IpAddress::V4(0xC0000203), false));
    // Address family must match the network's.
    assert!(!is_authorized(&policy, IpAddress::V6(0x0A000000), false));
}

#[test]
fn authorization_requires_identity_when_authenticated() {
    let policy = ServerPolicy {
        protocol: Protocol::Detect,
        authorizations: vec![Authorization {
            authentication: Authentication::TlsAuthenticated,
            networks: vec![Network::V4 { addr: 0, prefix: 0 }],
        }],
    };
    assert!(!is_authorized(&policy, IpAddress::V4(0x0A010203), false));
    assert!(is_authorized(&policy, IpAddress::V4(0x0A010203), true));
}
