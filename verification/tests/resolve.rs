use proxy_decision::addr::Addr;
use proxy_decision::backoff::{BackoffStream, ExponentialBackoff};
use proxy_decision::name::{NameAddr, Suffix};
use proxy_decision::net::{IpAddress, Network, SocketAddress};
use proxy_decision::resolve::{
    new, BackoffUnlessInvalidArgument, ConcreteTarget, DiscoveryError, DiscoveryRejected,
    PermitConfiguredDsts, ResolvePhase, ResolveStep, CODE_INVALID_ARGUMENT,
};

fn backoff() -> ExponentialBackoff {
    ExponentialBackoff { min_ms: 10, max_ms: 80 }
}

fn permit() -> PermitConfiguredDsts {
    PermitConfiguredDsts::new(
        vec![Suffix::Name(b"example.com".to_vec())],
        // 10.0.0.0/8
        vec![Network::V4 { addr: 0x0A000000, prefix: 8 }],
    )
}

fn named(bytes: &[u8]) -> ConcreteTarget {
    ConcreteTarget { dst: Addr::Name(NameAddr { name: bytes.to_vec(), port: 80 }) }
}

fn socket(ip: IpAddress) -> ConcreteTarget {
    ConcreteTarget { dst: Addr::Socket(SocketAddress { ip, port: 8080 }) }
}

#[test]
fn filter_permits_configured_names_and_networks() {
    let p = permit();
    assert!(p.filter(named(b"svc.example.com")).is_ok());
    assert!(p.filter(socket(IpAddress::V4(0x0A010203))).is_ok());
    assert_eq!(p.filter(named(b"svc.example.org")).unwrap_err(), DiscoveryRejected);
    assert_eq!(p.filter(socket(IpAddress::V4(0xC0A80101))).unwrap_err(), DiscoveryRejected);
    // Mismatched address families are never permitted.
    assert_eq!(p.filter(socket(IpAddress::V6(0x0A010203))).unwrap_err(), DiscoveryRejected);
}

// A target outside the configured suffixes and networks gets no resolution
// at all: the underlying discovery call is never reached for it.
#[test]
fn filtered_target_never_resolves() {
    let resolver = new(
        vec![Suffix::Name(b"example.com".to_vec())],
        vec![Network::V4 { addr: 0x0A000000, prefix: 8 }],
        backoff(),
    );
    let refused = resolver.resolve(named(b"svc.example.org"));
    assert_eq!(refused.unwrap_err(), DiscoveryRejected);
    let granted = resolver.resolve(named(b"svc.example.com")).expect("permitted");
    assert_eq!(granted.phase, ResolvePhase::Active);
    assert_eq!(granted.attempt, 0);
    assert_eq!(granted.reconnects, 0);
}

#[test]
fn recover_aborts_on_invalid_argument() {
    let r = BackoffUnlessInvalidArgument::from(backoff());
    let e = r.recover(DiscoveryError::Status { code: CODE_INVALID_ARGUMENT });
    assert_eq!(e.unwrap_err(), DiscoveryRejected);
    let s = r.recover(DiscoveryError::Status { code: 14 }).expect("retryable status");
    assert_eq!(s, BackoffStream { backoff: backoff(), attempt: 0 });
    let s = r.recover(DiscoveryError::Transport).expect("retryable transport");
    assert_eq!(s.attempt, 0);
}

// A terminal failure ends the resolution at once, with no backoff delay;
// transient failures each cost one backoff and one reconnect, so the number
// of reconnects matches the number of injected transient failures.
#[test]
fn recovery_retries_transient_failures_only() {
    let resolver = new(vec![Suffix::Root], Vec::new(), backoff());
    let mut res = resolver.resolve(named(b"svc.example.com")).expect("permitted");

    for expected_delay in [10u64, 20, 40] {
        let step = res.on_failure(DiscoveryError::Transport, 0);
        assert_eq!(step, ResolveStep::Backoff { delay_ms: expected_delay });
        assert_eq!(res.phase, ResolvePhase::BackingOff { delay_ms: expected_delay });
        assert_eq!(res.on_backoff_elapsed(), ResolveStep::Reconnect);
        assert_eq!(res.phase, ResolvePhase::Active);
    }
    assert_eq!(res.reconnects, 3);

    let step = res.on_failure(DiscoveryError::Status { code: CODE_INVALID_ARGUMENT }, 0);
    assert_eq!(step, ResolveStep::Terminate);
    assert_eq!(res.phase, ResolvePhase::Failed);
    assert_eq!(res.reconnects, 3);
}

#[test]
fn backoff_doubles_to_the_maximum() {
    let b = backoff();
    assert_eq!(b.delay_ms(0), 10);
    assert_eq!(b.delay_ms(1), 20);
    assert_eq!(b.delay_ms(2), 40);
    assert_eq!(b.delay_ms(3), 80);
    assert_eq!(b.delay_ms(4), 80);
    assert_eq!(b.delay_ms(10), 80);
}

#[test]
fn jitter_stays_within_one_base_delay() {
    let b = backoff();
    // base 10; entropy 7 adds 7 % 11 = 7.
    assert_eq!(b.jittered_delay_ms(0, 7), 17);
    assert_eq!(b.jittered_delay_ms(0, 0), 10);
    for entropy in 0..100u64 {
        let d = b.jittered_delay_ms(0, entropy);
        assert!((10..=20).contains(&d));
    }
    let mut stream = b.stream();
    assert_eq!(stream.next_delay(3), 13);
    assert_eq!(stream.next_delay(0), 20);
    assert_eq!(stream.attempt, 2);
}
