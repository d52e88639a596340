use portscan::request::{RequestError, ScanRequest};

fn request(start: u16, end: u16, timeout: u64, concurrency: usize) -> ScanRequest {
    match ScanRequest::new("scanme.test".to_string(), start, end, timeout, concurrency) {
        Ok(made) => made,
        Err(error) => panic!("request refused: {:?}", error),
    }
}

#[test]
fn valid_request_keeps_its_parts() {
    let made = request(1, 1024, 800, 1000);
    assert_eq!(made.host(), "scanme.test");
    assert_eq!(made.start_port(), 1);
    assert_eq!(made.end_port(), 1024);
    assert_eq!(made.timeout_millis(), 800);
    assert_eq!(made.concurrency(), 1000);
}

#[test]
fn zero_concurrency_is_raised_to_one() {
    let made = request(1, 10, 800, 0);
    assert_eq!(made.concurrency(), 1);
}

#[test]
fn concurrency_of_one_stays() {
    let made = request(1, 10, 800, 1);
    assert_eq!(made.concurrency(), 1);
}

#[test]
fn inverted_range_is_refused() {
    let made = ScanRequest::new("h".to_string(), 11, 10, 800, 4);
    assert_eq!(made, Err(RequestError::InvertedRange));
}

#[test]
fn zero_timeout_is_refused() {
    let made = ScanRequest::new("h".to_string(), 1, 10, 0, 4);
    assert_eq!(made, Err(RequestError::ZeroTimeout));
}

#[test]
fn inverted_range_is_reported_before_zero_timeout() {
    let made = ScanRequest::new("h".to_string(), 2, 1, 0, 0);
    assert_eq!(made, Err(RequestError::InvertedRange));
}

#[test]
fn single_port_range_is_valid() {
    let made = request(5, 5, 1, 1);
    assert_eq!(made.total_ports(), 1);
}

#[test]
fn total_ports_counts_both_ends() {
    assert_eq!(request(1, 10, 800, 4).total_ports(), 10);
    assert_eq!(request(1, 1024, 800, 4).total_ports(), 1024);
    assert_eq!(request(0, 0, 800, 4).total_ports(), 1);
    assert_eq!(request(65535, 65535, 800, 4).total_ports(), 1);
}

#[test]
fn total_ports_of_the_whole_port_space() {
    assert_eq!(request(0, 65535, 800, 4).total_ports(), 65536);
}

#[test]
fn worst_case_when_serialized() {
    assert_eq!(request(1, 100, 50, 1).worst_case_millis(), 5000);
}

#[test]
fn worst_case_when_fully_parallel() {
    assert_eq!(request(1, 10, 800, 1000).worst_case_millis(), 800);
    assert_eq!(request(1, 10, 800, 10).worst_case_millis(), 800);
}

#[test]
fn worst_case_rounds_up() {
    assert_eq!(request(1, 10, 100, 3).worst_case_millis(), 400);
    assert_eq!(request(1, 10, 100, 9).worst_case_millis(), 200);
    assert_eq!(request(1, 65535, 800, 1000).worst_case_millis(), 66 * 800);
}

#[test]
fn worst_case_of_extreme_values() {
    let made = request(0, 65535, u64::MAX, 1);
    assert_eq!(made.worst_case_millis(), 65536u128 * (u64::MAX as u128));
    let wide = request(0, 65535, u64::MAX, usize::MAX);
    assert_eq!(wide.worst_case_millis(), u64::MAX as u128);
}

#[test]
fn request_can_be_cloned_and_compared() {
    let made = request(1, 10, 800, 4);
    let copy = made.clone();
    assert_eq!(made, copy);
    assert_ne!(made, request(1, 11, 800, 4));
}
