use proxy_decision::addr::Addr;
use proxy_decision::ingress::{
    discovery_key, dst_override_header, extract_target, find_override_header, parse_host_port,
    require_http, route, should_discover, strip_override_header, Header, Http, IngressError,
    NoClientTls, Profile, Route, Target, Version,
};
use proxy_decision::name::{NameAddr, Suffix};
use proxy_decision::net::{IpAddress, SocketAddress};

fn orig_dst() -> SocketAddress {
    SocketAddress { ip: IpAddress::V4(0xC0000202), port: 8080 }
}

fn name(bytes: &[u8], port: u16) -> NameAddr {
    NameAddr { name: bytes.to_vec(), port }
}

#[test]
fn no_header_forwards_original_destination() {
    let h = extract_target(None, orig_dst(), Version::Http1).expect("forward");
    assert_eq!(h.target, Target::Forward(orig_dst()));
    assert_eq!(h.version, Version::Http1);
}

#[test]
fn override_header_with_port() {
    let v = b"svc.example:9000".to_vec();
    let h = extract_target(Some(&v), orig_dst(), Version::H2).expect("override");
    assert_eq!(h.target, Target::Override(name(b"svc.example", 9000)));
    assert_eq!(h.version, Version::H2);
}

#[test]
fn override_header_defaults_port_80() {
    let v = b"svc.example".to_vec();
    let h = extract_target(Some(&v), orig_dst(), Version::Http1).expect("override");
    assert_eq!(h.target, Target::Override(name(b"svc.example", 80)));
}

#[test]
fn malformed_override_is_invalid() {
    let v = b"not a host".to_vec();
    let e = extract_target(Some(&v), orig_dst(), Version::Http1).expect_err("invalid");
    assert_eq!(e, IngressError::InvalidOverride);
}

#[test]
fn override_parse_edge_cases() {
    assert!(parse_host_port(&b"".to_vec()).is_none());
    assert!(parse_host_port(&b":80".to_vec()).is_none());
    assert!(parse_host_port(&b"svc.example:".to_vec()).is_none());
    assert!(parse_host_port(&b"svc.example:99999".to_vec()).is_none());
    assert!(parse_host_port(&b"a:1:2".to_vec()).is_none());
    let na = parse_host_port(&b"svc.example:0080".to_vec()).expect("leading zeros");
    assert_eq!(na, name(b"svc.example", 80));
    let na = parse_host_port(&b"10.0.0.1:65535".to_vec()).expect("numeric host");
    assert_eq!(na, name(b"10.0.0.1", 65535));
}

#[test]
fn non_http_is_refused() {
    assert_eq!(require_http(Some(Version::H2)), Ok(Version::H2));
    assert_eq!(require_http(None), Err(IngressError::HttpOnly));
}

#[test]
fn discovery_gate_is_suffix_scoped() {
    let domains = vec![Suffix::Name(b"example.com".to_vec())];
    let in_domain = Target::Override(name(b"svc.example.com", 9000));
    let out_of_domain = Target::Override(name(b"svc.example.org", 9000));
    let forward = Target::Forward(orig_dst());
    assert!(should_discover(&in_domain, &domains));
    assert!(!should_discover(&out_of_domain, &domains));
    assert!(!should_discover(&forward, &domains));
    let root = vec![Suffix::Root];
    assert!(should_discover(&out_of_domain, &root));
}

#[test]
fn discovery_key_is_the_override_address() {
    let domains = vec![Suffix::Name(b"example.com".to_vec())];
    let in_domain = Target::Override(name(b"svc.example.com", 9000));
    assert_eq!(discovery_key(&in_domain, &domains), Some(name(b"svc.example.com", 9000)));
    let out_of_domain = Target::Override(name(b"svc.example.org", 9000));
    assert_eq!(discovery_key(&out_of_domain, &domains), None);
    assert_eq!(discovery_key(&Target::Forward(orig_dst()), &domains), None);
}

#[test]
fn forward_routes_to_original_destination() {
    let http = Http { target: Target::Forward(orig_dst()), version: Version::Http1 };
    let r = route(http, false, None).expect("endpoint");
    assert_eq!(
        r,
        Route::Endpoint {
            dest: Addr::Socket(orig_dst()),
            version: Version::Http1,
            tls: NoClientTls::IngressWithoutOverride,
        }
    );
}

// An override outside the configured profile domains skips discovery and is
// routed like a forward — but to the override's own address, not the
// connection's original destination.
#[test]
fn out_of_domain_override_routes_to_override_address() {
    let domains = vec![Suffix::Name(b"example.com".to_vec())];
    let target = Target::Override(name(b"svc.example.org", 9000));
    assert!(!should_discover(&target, &domains));
    let http = Http { target, version: Version::H2 };
    let r = route(http, false, None).expect("endpoint");
    assert_eq!(
        r,
        Route::Endpoint {
            dest: Addr::Name(name(b"svc.example.org", 9000)),
            version: Version::H2,
            tls: NoClientTls::IngressWithoutOverride,
        }
    );
}

#[test]
fn in_domain_override_with_profile_routes_logical() {
    let http = Http {
        target: Target::Override(name(b"svc.example.com", 9000)),
        version: Version::H2,
    };
    let profile = Profile { addr: Some(name(b"svc.example.com.svc.cluster.local", 9000)) };
    let r = route(http, true, Some(profile)).expect("logical");
    assert_eq!(
        r,
        Route::Logical {
            logical_addr: name(b"svc.example.com.svc.cluster.local", 9000),
            version: Version::H2,
        }
    );
}

#[test]
fn in_domain_override_without_profile_is_refused() {
    let http = Http {
        target: Target::Override(name(b"svc.example.com", 9000)),
        version: Version::Http1,
    };
    let e = route(http, true, None).expect_err("profile required");
    assert_eq!(e, IngressError::ProfileRequired);
    let http = Http {
        target: Target::Override(name(b"svc.example.com", 9000)),
        version: Version::Http1,
    };
    let e = route(http, true, Some(Profile { addr: None })).expect_err("profile required");
    assert_eq!(e, IngressError::ProfileRequired);
}

#[test]
fn override_header_is_stripped() {
    let headers = vec![
        Header { name: b"host".to_vec(), value: b"svc".to_vec() },
        Header { name: dst_override_header(), value: b"svc.example:9000".to_vec() },
        Header { name: b"accept".to_vec(), value: b"*/*".to_vec() },
        Header { name: dst_override_header(), value: b"other:80".to_vec() },
    ];
    assert_eq!(find_override_header(&headers), Some(1));
    let stripped = strip_override_header(headers);
    assert_eq!(
        stripped,
        vec![
            Header { name: b"host".to_vec(), value: b"svc".to_vec() },
            Header { name: b"accept".to_vec(), value: b"*/*".to_vec() },
        ]
    );
    assert_eq!(find_override_header(&stripped), None);
}
