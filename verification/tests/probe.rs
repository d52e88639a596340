use portscan::probe::{target_address, ConnectAttempt, ProbeOutcome};

#[test]
fn connected_attempt_is_open() {
    let outcome = ProbeOutcome::from_attempt(443, ConnectAttempt::Connected);
    assert_eq!(outcome, ProbeOutcome { port: 443, open: true });
}

#[test]
fn failed_attempt_is_not_open() {
    let outcome = ProbeOutcome::from_attempt(443, ConnectAttempt::Failed);
    assert_eq!(outcome, ProbeOutcome { port: 443, open: false });
}

#[test]
fn timed_out_attempt_is_not_open() {
    let outcome = ProbeOutcome::from_attempt(8080, ConnectAttempt::TimedOut);
    assert_eq!(outcome, ProbeOutcome { port: 8080, open: false });
}

#[test]
fn refusal_and_timeout_are_not_told_apart() {
    let refused = ProbeOutcome::from_attempt(22, ConnectAttempt::Failed);
    let late = ProbeOutcome::from_attempt(22, ConnectAttempt::TimedOut);
    assert_eq!(refused, late);
}

#[test]
fn open_port_of_open_outcome() {
    let outcome = ProbeOutcome { port: 80, open: true };
    assert_eq!(outcome.open_port(), Some(80));
}

#[test]
fn open_port_of_closed_outcome() {
    let outcome = ProbeOutcome { port: 80, open: false };
    assert_eq!(outcome.open_port(), None);
}

#[test]
fn address_joins_host_and_port() {
    assert_eq!(target_address("example.com", 80), "example.com:80");
    assert_eq!(target_address("127.0.0.1", 8080), "127.0.0.1:8080");
}

#[test]
fn address_of_port_zero() {
    assert_eq!(target_address("localhost", 0), "localhost:0");
}

#[test]
fn address_of_highest_port() {
    assert_eq!(target_address("localhost", 65535), "localhost:65535");
}

#[test]
fn address_keeps_inner_zeros() {
    assert_eq!(target_address("h", 10), "h:10");
    assert_eq!(target_address("h", 100), "h:100");
    assert_eq!(target_address("h", 1000), "h:1000");
    assert_eq!(target_address("h", 10000), "h:10000");
    assert_eq!(target_address("h", 10203), "h:10203");
    assert_eq!(target_address("h", 9), "h:9");
}

#[test]
fn address_of_empty_host() {
    assert_eq!(target_address("", 1024), ":1024");
}

#[test]
fn address_agrees_with_the_standard_rendering() {
    let mut port: u32 = 0;
    while port <= 65535 {
        let rendered = target_address("host", port as u16);
        assert_eq!(rendered, format!("host:{}", port));
        port += 1;
    }
}
