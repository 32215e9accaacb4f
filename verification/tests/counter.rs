use sponk::counter::{report_level, RequestCounter};

#[test]
fn counter_reports_interval_tally_once_and_resets() {
    // exactly N responses within one interval: the take yields N once and
    // the tally starts the next interval at 0
    let n = 37;
    let mut counter = RequestCounter::new();
    for _ in 0..n {
        counter.record();
    }
    assert_eq!(counter.count(), n);
    assert_eq!(counter.take(), n);
    assert_eq!(counter.count(), 0);
    assert_eq!(counter.take(), 0);
    counter.record();
    assert_eq!(counter.take(), 1);
}

#[test]
fn report_level_matches_decimal_magnitude() {
    assert_eq!(report_level(0), 0);
    assert_eq!(report_level(1), 0);
    assert_eq!(report_level(9), 0);
    assert_eq!(report_level(10), 0);
    assert_eq!(report_level(11), 1);
    assert_eq!(report_level(100), 1);
    assert_eq!(report_level(101), 1);
    assert_eq!(report_level(1000), 1);
    assert_eq!(report_level(1001), 2);
    assert_eq!(report_level(99999), 2);
    assert_eq!(report_level(100001), 3);
}
