use benchrs::report::{failures, Event, Failures, Report, Summary};

fn request(nanos: u128) -> Event {
    Event::Request { id: 0, request_time: nanos }
}

fn connection() -> Event {
    Event::Connection { id: 0, conn_time: 1, tls_time: None, conn_ready: 2 }
}

fn report(millis: &[u128]) -> Report {
    let mut report = Report::new();
    for time in millis {
        report.record(&request(time * 1_000_000));
    }
    report
}

#[test]
fn nothing_to_sum_up() {
    assert_eq!(Report::new().summary(0, 0), None);
    let mut report = Report::new();
    report.record(&connection());
    assert_eq!(report.requests(), 0);
    assert_eq!(report.summary(3, 4), None);
}

#[test]
fn every_event_counts_once() {
    let mut report = Report::new();
    report.record(&connection());
    report.record(&request(999_999));
    report.record(&connection());
    report.record(&request(1_000_000));
    report.record(&request(2_999_999));
    assert_eq!(report.requests(), 3);
    assert_eq!(
        report.summary(1, 2),
        Some(Summary { connections: 2, requests: 3, total: 3, median: 1, p95: 1, p99: 2 })
    );
}

#[test]
fn times_are_put_in_order() {
    let summary = report(&[50, 10, 40, 10, 30, 20]).summary(4, 5).unwrap();
    assert_eq!(
        summary,
        Summary { connections: 0, requests: 6, total: 160, median: 30, p95: 40, p99: 50 }
    );
    let summary = report(&[7]).summary(0, 0).unwrap();
    assert_eq!(
        summary,
        Summary { connections: 0, requests: 1, total: 7, median: 7, p95: 7, p99: 7 }
    );
    let summary = report(&[9, 3]).summary(0, 1).unwrap();
    assert_eq!((summary.median, summary.p95, summary.p99), (9, 3, 9));
}

#[test]
fn places_are_in_order() {
    let times: Vec<u128> = (0..100).map(|i| (i * 37) % 100).collect();
    let summary = report(&times).summary(95, 99).unwrap();
    assert_eq!(summary.median, 50);
    assert_eq!(summary.p95, 95);
    assert_eq!(summary.p99, 99);
    assert_eq!(summary.total, 4950);
}

#[test]
fn failures_are_counted() {
    assert_eq!(failures(&[]), None);
    assert_eq!(failures(&[true, true]), None);
    assert_eq!(
        failures(&[true, false, true, false]),
        Some(Failures { failed: 2, succeeded: 2, first: 1 })
    );
    assert_eq!(failures(&[false]), Some(Failures { failed: 1, succeeded: 0, first: 0 }));
}

#[test]
fn sum_of_the_times() {
    let mut report = Report::new();
    assert_eq!(report.total(), Some(0));
    assert_eq!(report.connections(), 0);
    report.record(&request(u128::MAX));
    report.record(&connection());
    assert_eq!(report.connections(), 1);
    assert_eq!(report.total(), Some(u128::MAX / 1_000_000));
}
