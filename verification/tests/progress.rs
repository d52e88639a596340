use portscan::progress::{
    ProgressCounter, ProgressEvent, Reporter, POLL_INTERVAL_MILLIS, REPORT_GRANULARITY,
};

#[test]
fn counter_starts_at_zero() {
    let counter = ProgressCounter::new(10);
    assert_eq!(counter.read(), 0);
    assert_eq!(counter.total(), 10);
    assert!(!counter.is_complete());
}

#[test]
fn counter_goes_up_by_one() {
    let mut counter = ProgressCounter::new(3);
    assert!(counter.increment());
    assert_eq!(counter.read(), 1);
    assert!(counter.increment());
    assert_eq!(counter.read(), 2);
    assert!(!counter.is_complete());
    assert!(counter.increment());
    assert_eq!(counter.read(), 3);
    assert!(counter.is_complete());
}

#[test]
fn counter_stays_at_its_total() {
    let mut counter = ProgressCounter::new(1);
    assert!(counter.increment());
    assert!(!counter.increment());
    assert!(!counter.increment());
    assert_eq!(counter.read(), 1);
    assert_eq!(counter.total(), 1);
}

#[test]
fn counter_of_nothing_is_complete() {
    let mut counter = ProgressCounter::new(0);
    assert!(counter.is_complete());
    assert!(!counter.increment());
    assert_eq!(counter.read(), 0);
}

#[test]
fn counter_never_goes_down() {
    let mut counter = ProgressCounter::new(50);
    let mut last = counter.read();
    let mut step = 0;
    while step < 80 {
        counter.increment();
        assert!(counter.read() >= last);
        assert!(counter.read() <= counter.total());
        last = counter.read();
        step += 1;
    }
    assert_eq!(last, 50);
}

#[test]
fn reporting_constants() {
    assert_eq!(REPORT_GRANULARITY, 10);
    assert_eq!(POLL_INTERVAL_MILLIS, 50);
}

#[test]
fn reporter_is_silent_at_zero() {
    let mut reporter = Reporter::new(25, 10);
    assert_eq!(reporter.observe(0), None);
    assert!(!reporter.is_finished());
}

#[test]
fn reporter_reports_multiples_of_the_granularity() {
    let mut reporter = Reporter::new(25, 10);
    assert_eq!(reporter.observe(10), Some(ProgressEvent::Progress { current: 10, total: 25 }));
    assert_eq!(reporter.observe(20), Some(ProgressEvent::Progress { current: 20, total: 25 }));
}

#[test]
fn reporter_skips_other_values() {
    let mut reporter = Reporter::new(25, 10);
    assert_eq!(reporter.observe(1), None);
    assert_eq!(reporter.observe(9), None);
    assert_eq!(reporter.observe(11), None);
    assert_eq!(reporter.observe(19), None);
}

#[test]
fn reporter_does_not_repeat_a_value() {
    let mut reporter = Reporter::new(25, 10);
    assert_eq!(reporter.observe(10), Some(ProgressEvent::Progress { current: 10, total: 25 }));
    assert_eq!(reporter.observe(10), None);
    assert_eq!(reporter.observe(10), None);
    assert_eq!(reporter.observe(20), Some(ProgressEvent::Progress { current: 20, total: 25 }));
    assert_eq!(reporter.observe(20), None);
}

#[test]
fn reporter_ends_at_the_total() {
    let mut reporter = Reporter::new(25, 10);
    assert_eq!(reporter.observe(25), Some(ProgressEvent::Done { total: 25 }));
    assert!(reporter.is_finished());
}

#[test]
fn reporter_ends_past_the_total() {
    let mut reporter = Reporter::new(25, 10);
    assert_eq!(reporter.observe(30), Some(ProgressEvent::Done { total: 25 }));
}

#[test]
fn reporter_says_done_once() {
    let mut reporter = Reporter::new(20, 10);
    assert_eq!(reporter.observe(20), Some(ProgressEvent::Done { total: 20 }));
    assert_eq!(reporter.observe(20), None);
    assert_eq!(reporter.observe(10), None);
    assert_eq!(reporter.observe(0), None);
    assert!(reporter.is_finished());
}

#[test]
fn reporter_prefers_done_to_progress_at_the_total() {
    let mut reporter = Reporter::new(20, 10);
    assert_eq!(reporter.observe(10), Some(ProgressEvent::Progress { current: 10, total: 20 }));
    assert_eq!(reporter.observe(20), Some(ProgressEvent::Done { total: 20 }));
}

#[test]
fn reporter_of_an_empty_scan_is_done_at_once() {
    let mut reporter = Reporter::new(0, 10);
    assert_eq!(reporter.observe(0), Some(ProgressEvent::Done { total: 0 }));
    assert_eq!(reporter.observe(0), None);
}

#[test]
fn reporter_with_granularity_one_reports_every_advance() {
    let mut reporter = Reporter::new(4, 1);
    assert_eq!(reporter.observe(0), None);
    assert_eq!(reporter.observe(1), Some(ProgressEvent::Progress { current: 1, total: 4 }));
    assert_eq!(reporter.observe(2), Some(ProgressEvent::Progress { current: 2, total: 4 }));
    assert_eq!(reporter.observe(2), None);
    assert_eq!(reporter.observe(3), Some(ProgressEvent::Progress { current: 3, total: 4 }));
    assert_eq!(reporter.observe(4), Some(ProgressEvent::Done { total: 4 }));
}

#[test]
fn reporter_takes_granularity_zero_for_one() {
    let mut reporter = Reporter::new(3, 0);
    assert_eq!(reporter.observe(1), Some(ProgressEvent::Progress { current: 1, total: 3 }));
    assert_eq!(reporter.observe(2), Some(ProgressEvent::Progress { current: 2, total: 3 }));
    assert_eq!(reporter.observe(3), Some(ProgressEvent::Done { total: 3 }));
}

#[test]
fn reporter_over_a_whole_scan_reports_each_tenth_once() {
    let mut reporter = Reporter::new(100, REPORT_GRANULARITY);
    let mut progress: Vec<usize> = Vec::new();
    let mut done = 0;
    let mut current = 0;
    while current <= 100 {
        // the reporter looks at each value twice, as a slow counter allows
        let mut look = 0;
        while look < 2 {
            match reporter.observe(current) {
                Some(ProgressEvent::Progress { current: seen, total }) => {
                    assert_eq!(total, 100);
                    progress.push(seen);
                }
                Some(ProgressEvent::Done { total }) => {
                    assert_eq!(total, 100);
                    done += 1;
                }
                None => {}
            }
            look += 1;
        }
        current += 1;
    }
    assert_eq!(progress, vec![10, 20, 30, 40, 50, 60, 70, 80, 90]);
    assert_eq!(done, 1);
}

#[test]
fn reporter_does_not_go_back() {
    let mut reporter = Reporter::new(50, 10);
    assert_eq!(reporter.observe(20), Some(ProgressEvent::Progress { current: 20, total: 50 }));
    assert_eq!(reporter.observe(10), None);
    assert_eq!(reporter.observe(0), None);
    assert_eq!(reporter.observe(30), Some(ProgressEvent::Progress { current: 30, total: 50 }));
}

#[test]
fn reporter_may_skip_multiples_it_did_not_see() {
    let mut reporter = Reporter::new(100, 10);
    assert_eq!(reporter.observe(7), None);
    assert_eq!(reporter.observe(40), Some(ProgressEvent::Progress { current: 40, total: 100 }));
    assert_eq!(reporter.observe(45), None);
    assert_eq!(reporter.observe(99), None);
    assert_eq!(reporter.observe(100), Some(ProgressEvent::Done { total: 100 }));
}
