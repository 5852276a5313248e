use uptime_worker::probe::AttemptOutcome;
use uptime_worker::probe::Prober;
use uptime_worker::probe::attempt_success;
use uptime_worker::route::Route;

fn mk_route(id: &str, interval: i32) -> Route {
    Route {
        id: id.to_string(),
        name: format!("route {}", id),
        url: "http://example.test/health".to_string(),
        method: "GET".to_string(),
        headers: Vec::new(),
        body: None,
        expected_status: None,
        time_threshold: None,
        interval,
        retries: None,
        alert_email: None,
        is_active: true,
    }
}

#[test]
fn single_attempt_success_scenario() {
    // A 200 response, no expected status, no retries, no threshold.
    let mut route = mk_route("r1", 60);
    route.retries = Some(0);
    let mut p = Prober::for_route(&route);
    assert!(p.wants_attempt());
    let retry = p.record(AttemptOutcome::Response(200));
    assert!(!retry);
    assert!(!p.wants_attempt());
    let log = p.finish(&route.id, 12, route.time_threshold);
    assert!(log.is_success);
    assert_eq!(log.status_code, Some(200));
    assert_eq!(log.response_time, Some(12));
    assert_eq!(log.route_id, "r1");
    assert_eq!(log.id.len(), 36);
}

#[test]
fn expected_status_never_seen_exhausts_retries() {
    // Expected 201, server always answers 500, two retries: three attempts.
    let mut attempts = 0;
    let mut p = Prober::new(Some(201), Some(2));
    while p.wants_attempt() {
        attempts += 1;
        p.record(AttemptOutcome::Response(500));
    }
    assert_eq!(attempts, 3);
    let log = p.finish(&"r2".to_string(), 40, None);
    assert!(!log.is_success);
    assert_eq!(log.status_code, Some(500));
}

#[test]
fn threshold_downgrades_matching_status() {
    // A matching 200 whose cumulative elapsed time exceeds the threshold.
    let mut p = Prober::new(None, Some(0));
    p.record(AttemptOutcome::Response(200));
    let log = p.finish(&"r3".to_string(), 250, Some(100));
    assert!(!log.is_success);
    assert_eq!(log.status_code, Some(200));
    assert_eq!(log.response_time, Some(250));
}

#[test]
fn threshold_counts_time_across_retries() {
    // The status criterion was met on the second attempt, but the
    // cumulative elapsed time across both attempts exceeds the threshold:
    // the probe is downgraded to a failure after the fact.
    let mut p = Prober::new(None, Some(1));
    assert!(p.record(AttemptOutcome::TransportError));
    assert!(!p.record(AttemptOutcome::Response(200)));
    let log = p.finish(&"r9".to_string(), 700, Some(100));
    assert!(!log.is_success);
    assert_eq!(log.status_code, Some(200));
    assert_eq!(log.response_time, Some(700));
}

#[test]
fn threshold_within_budget_keeps_success() {
    let mut p = Prober::new(Some(204), None);
    p.record(AttemptOutcome::Response(204));
    let log = p.finish(&"r4".to_string(), 90, Some(100));
    assert!(log.is_success);
}

#[test]
fn transport_errors_leave_no_status() {
    let mut p = Prober::new(None, Some(1));
    assert!(p.record(AttemptOutcome::TransportError));
    assert!(!p.record(AttemptOutcome::TransportError));
    let log = p.finish(&"r5".to_string(), 70, None);
    assert!(!log.is_success);
    assert_eq!(log.status_code, None);
}

#[test]
fn status_survives_a_later_transport_error() {
    let mut p = Prober::new(None, Some(1));
    assert!(p.record(AttemptOutcome::Response(503)));
    assert!(!p.record(AttemptOutcome::TransportError));
    let log = p.finish(&"r6".to_string(), 80, None);
    assert!(!log.is_success);
    assert_eq!(log.status_code, Some(503));
}

#[test]
fn stops_at_first_success_with_budget_left() {
    let mut p = Prober::new(None, Some(5));
    assert!(p.record(AttemptOutcome::Response(500)));
    let retry = p.record(AttemptOutcome::Response(200));
    assert!(!retry);
    assert!(!p.wants_attempt());
    let log = p.finish(&"r7".to_string(), 30, None);
    assert!(log.is_success);
    assert_eq!(log.status_code, Some(200));
}

#[test]
fn negative_retry_budget_allows_no_attempt() {
    let p = Prober::new(None, Some(-1));
    assert!(!p.wants_attempt());
    let log = p.finish(&"r8".to_string(), 1, None);
    assert!(!log.is_success);
    assert_eq!(log.status_code, None);
}

#[test]
fn attempt_success_rules() {
    // With an expected code only that exact code passes.
    assert!(attempt_success(Some(404), 404));
    assert!(!attempt_success(Some(404), 200));
    // Without one, exactly the 2xx range passes.
    assert!(attempt_success(None, 200));
    assert!(attempt_success(None, 299));
    assert!(!attempt_success(None, 199));
    assert!(!attempt_success(None, 300));
}
