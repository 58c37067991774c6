use proxy_decision::ingress::{Http, Target, Version};
use proxy_decision::name::NameAddr;
use proxy_decision::net::{IpAddress, SocketAddress};
use proxy_decision::router::{
    poll_dispatch, ConcurrencyLimited, DispatchDecision, LookupOutcome, Router,
};

fn forward_key(port: u16) -> Http {
    Http {
        target: Target::Forward(SocketAddress { ip: IpAddress::V4(0xC0000202), port }),
        version: Version::Http1,
    }
}

fn override_key(bytes: &[u8]) -> Http {
    Http {
        target: Target::Override(NameAddr { name: bytes.to_vec(), port: 80 }),
        version: Version::H2,
    }
}

// Looking the same key up twice before its idle age elapses observes the
// same unit, and only the first lookup starts a construction.
#[test]
fn lookup_is_idempotent_within_idle_age() {
    let mut router = Router::new(100, 50, 8);
    let key = override_key(b"svc.example.com");
    let first = router.lookup(&key, 1);
    assert_eq!(first, LookupOutcome::Started(0));
    assert_eq!(router.keys.len(), 1);
    let second = router.lookup(&key, 2);
    assert_eq!(second, LookupOutcome::Joined(0));
    assert_eq!(router.keys.len(), 1);
    router.evict_idle(90);
    let third = router.lookup(&key, 91);
    assert_eq!(third, LookupOutcome::Joined(0));
    assert_eq!(router.keys.len(), 1);
}

#[test]
fn distinct_keys_build_distinct_units() {
    let mut router = Router::new(100, 50, 8);
    assert_eq!(router.lookup(&override_key(b"a.example"), 1), LookupOutcome::Started(0));
    assert_eq!(router.lookup(&forward_key(8080), 1), LookupOutcome::Started(1));
    // The version distinguishes keys sharing a target.
    let mut h1 = override_key(b"a.example");
    h1.version = Version::Http1;
    assert_eq!(router.lookup(&h1, 1), LookupOutcome::Started(2));
    assert_eq!(router.keys.len(), 3);
}

#[test]
fn idle_entries_are_evicted() {
    let mut router = Router::new(100, 50, 8);
    router.lookup(&override_key(b"old.example"), 0);
    router.lookup(&override_key(b"new.example"), 60);
    // At 150, the first entry has idled for 150 > 100; the second for 90.
    router.evict_idle(150);
    assert_eq!(router.keys.len(), 1);
    // The surviving entry is still joined; the evicted one is rebuilt.
    assert_eq!(router.lookup(&override_key(b"new.example"), 151), LookupOutcome::Joined(1));
    assert_eq!(router.lookup(&override_key(b"old.example"), 151), LookupOutcome::Started(2));
}

#[test]
fn access_refreshes_the_idle_clock() {
    let mut router = Router::new(100, 50, 8);
    router.lookup(&override_key(b"svc.example"), 0);
    router.lookup(&override_key(b"svc.example"), 80);
    // Idle time counts from the last access at 80, not from creation.
    router.evict_idle(150);
    assert_eq!(router.keys.len(), 1);
}

#[test]
fn in_flight_requests_are_capped() {
    let mut router = Router::new(100, 50, 2);
    assert_eq!(router.acquire(), Ok(()));
    assert_eq!(router.acquire(), Ok(()));
    assert_eq!(router.acquire(), Err(ConcurrencyLimited));
    router.release();
    assert_eq!(router.acquire(), Ok(()));
    assert_eq!(router.in_flight, 2);
}

#[test]
fn fail_fast_after_dispatch_timeout() {
    assert_eq!(poll_dispatch(true, 0, 50), DispatchDecision::Dispatch);
    assert_eq!(poll_dispatch(true, 1000, 50), DispatchDecision::Dispatch);
    assert_eq!(poll_dispatch(false, 49, 50), DispatchDecision::Wait);
    assert_eq!(poll_dispatch(false, 50, 50), DispatchDecision::FailFast);
}
