use pingtool::host::Host;
use pingtool::host::HISTORY_CAPACITY;

#[test]
fn fresh_host_defaults() {
    let h = Host::new(String::from("example"));
    assert_eq!(h.name, "example");
    assert!(h.address.is_none());
    assert_eq!(h.history.len(), 0);
    assert_eq!(h.current(), 0);
    assert_eq!(h.min(), 0);
    assert_eq!(h.max(), 0);
    assert_eq!(h.avg(), 0);
}

#[test]
fn single_push_semantics() {
    // Pushing a latency of 10.0 milliseconds (10_000 microseconds) into a
    // fresh record.
    let mut h = Host::new(String::from("a"));
    h.push_value(10_000);
    h.calculate();
    assert_eq!(h.current(), 10_000);
    assert_eq!(h.min(), 10_000);
    assert_eq!(h.max(), 10_000);
    assert_eq!(h.avg(), 10_000);
    assert_eq!(h.history.len(), 1);
}

#[test]
fn bounded_history() {
    let mut h = Host::new(String::from("a"));
    assert_eq!(h.history.len(), 0);
    for n in 1..=200u64 {
        h.push_value(n);
        let expected = if (n as usize) <= HISTORY_CAPACITY {
            n as usize
        } else {
            HISTORY_CAPACITY
        };
        assert_eq!(h.history.len(), expected);
    }
}

#[test]
fn eviction_order() {
    // Values 1.0 .. 150.0 milliseconds, as microseconds. The first 30
    // samples are evicted; 31.0 .. 150.0 remain, so the average is exactly
    // 90.5 milliseconds (90_500 microseconds).
    let mut h = Host::new(String::from("a"));
    for n in 1..=150u64 {
        h.push_value(n * 1000);
        h.calculate();
    }
    assert_eq!(h.history.len(), 120);
    assert_eq!(h.current(), 150_000);
    assert_eq!(h.min(), 31_000);
    assert_eq!(h.max(), 150_000);
    assert_eq!(h.avg(), 90_500);
    // Newest first; oldest surviving sample at the back.
    assert_eq!(*h.history.front().unwrap(), 150_000);
    assert_eq!(*h.history.back().unwrap(), 31_000);
}

#[test]
fn statistics_ordering() {
    let mut h = Host::new(String::from("a"));
    for v in [42_000u64, 7_000, 99_999, 7_001, 63_500] {
        h.push_value(v);
        h.calculate();
        assert!(h.min() <= h.avg());
        assert!(h.avg() <= h.max());
    }
    assert_eq!(h.min(), 7_000);
    assert_eq!(h.max(), 99_999);
}

#[test]
fn set_address_persists() {
    let mut h = Host::new(String::from("a"));
    h.set_address(String::from("192.0.2.1"));
    assert_eq!(h.address.as_deref(), Some("192.0.2.1"));
    h.set_address(String::from("192.0.2.2"));
    assert_eq!(h.address.as_deref(), Some("192.0.2.2"));
}
