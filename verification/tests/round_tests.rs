use pingtool::host::Host;
use pingtool::round::apply_response;
use pingtool::round::apply_responses;
use pingtool::round::registration_check;
use pingtool::round::Response;
use pingtool::round::RoundError;

fn fresh(names: &[&str]) -> Vec<Host> {
    names.iter().map(|n| Host::new(String::from(*n))).collect()
}

#[test]
fn round_matching() {
    // One answered probe for "a", one dropped probe for "b".
    let mut hosts = fresh(&["a", "b"]);
    let responses = vec![
        Response {
            name: String::from("a"),
            address: String::from("192.0.2.10"),
            latency: 5_000,
            dropped: false,
        },
        Response {
            name: String::from("b"),
            address: String::new(),
            latency: 0,
            dropped: true,
        },
    ];
    apply_responses(&mut hosts, &responses);
    assert_eq!(hosts[0].current(), 5_000);
    assert_eq!(hosts[0].address.as_deref(), Some("192.0.2.10"));
    assert_eq!(hosts[1].current(), 0);
    assert!(hosts[1].address.is_none());
    assert_eq!(hosts[1].history.len(), 0);
}

#[test]
fn drop_leaves_record_unchanged() {
    let mut hosts = fresh(&["a"]);
    hosts[0].push_value(20_000);
    hosts[0].calculate();
    let dropped = Response {
        name: String::from("a"),
        address: String::from("192.0.2.1"),
        latency: 77_000,
        dropped: true,
    };
    apply_response(&mut hosts, &dropped);
    assert_eq!(hosts[0].history.len(), 1);
    assert_eq!(hosts[0].current(), 20_000);
    assert_eq!(hosts[0].min(), 20_000);
    assert_eq!(hosts[0].max(), 20_000);
    assert_eq!(hosts[0].avg(), 20_000);
    // No prior successful response: the address stays absent.
    assert!(hosts[0].address.is_none());
}

#[test]
fn unknown_target_leaves_records_unchanged() {
    let mut hosts = fresh(&["a", "b"]);
    let stray = Response {
        name: String::from("c"),
        address: String::from("192.0.2.9"),
        latency: 1_000,
        dropped: false,
    };
    apply_response(&mut hosts, &stray);
    for h in &hosts {
        assert_eq!(h.history.len(), 0);
        assert_eq!(h.current(), 0);
        assert!(h.address.is_none());
    }
}

#[test]
fn first_match_wins() {
    let mut hosts = fresh(&["a", "a"]);
    let resp = Response {
        name: String::from("a"),
        address: String::from("192.0.2.4"),
        latency: 3_000,
        dropped: false,
    };
    apply_response(&mut hosts, &resp);
    assert_eq!(hosts[0].current(), 3_000);
    assert_eq!(hosts[1].current(), 0);
    assert_eq!(hosts[1].history.len(), 0);
}

#[test]
fn fatal_registration_failure() {
    let hosts = fresh(&["good.example", "bad.invalid"]);
    let registered = vec![true, false];
    let r = registration_check(&hosts, &registered);
    assert_eq!(
        r,
        Err(RoundError::UnknownHost(String::from("bad.invalid")))
    );
    // Nothing was mutated: the check only reads the records.
    for h in &hosts {
        assert_eq!(h.history.len(), 0);
        assert_eq!(h.current(), 0);
        assert!(h.address.is_none());
    }
}

#[test]
fn registration_all_ok() {
    let hosts = fresh(&["a", "b", "c"]);
    let registered = vec![true, true, true];
    assert_eq!(registration_check(&hosts, &registered), Ok(()));
}

#[test]
fn round_error_message_names_host() {
    let e = RoundError::UnknownHost(String::from("bad.invalid"));
    assert_eq!(e.message(), "unknown hostname error: 'bad.invalid'");
}
