use uptime_worker::route::Route;
use uptime_worker::scheduler::ControlMessage;
use uptime_worker::scheduler::SchedulerState;

fn mk_route(id: &str, interval: i32) -> Route {
    Route {
        id: id.to_string(),
        name: format!("route {}", id),
        url: format!("http://example.test/{}", id),
        method: "GET".to_string(),
        headers: Vec::new(),
        body: None,
        expected_status: None,
        time_threshold: None,
        interval,
        retries: None,
        alert_email: None,
        is_active: true,
    }
}

#[test]
fn added_routes_are_probed_each_tick() {
    let mut s = SchedulerState::new(60);
    assert!(s.is_empty());
    s.apply(ControlMessage::AddRoute(mk_route("a", 60)));
    s.apply(ControlMessage::AddRoute(mk_route("b", 60)));
    assert!(!s.is_empty());
    let snap = s.snapshot();
    assert_eq!(snap.len(), 2);
    assert_eq!(snap[0].id, "a");
    assert_eq!(snap[1].id, "b");
}

#[test]
fn re_adding_an_id_overwrites_the_entry() {
    let mut s = SchedulerState::new(60);
    s.apply(ControlMessage::AddRoute(mk_route("a", 60)));
    let mut changed = mk_route("a", 60);
    changed.url = "http://example.test/elsewhere".to_string();
    s.apply(ControlMessage::AddRoute(changed));
    let snap = s.snapshot();
    assert_eq!(snap.len(), 1);
    assert_eq!(snap[0].url, "http://example.test/elsewhere");
}

#[test]
fn removed_route_receives_no_further_probes() {
    let mut s = SchedulerState::new(60);
    s.apply(ControlMessage::AddRoute(mk_route("a", 60)));
    s.apply(ControlMessage::AddRoute(mk_route("b", 60)));
    s.apply(ControlMessage::RemoveRoute("a".to_string()));
    let snap = s.snapshot();
    assert_eq!(snap.len(), 1);
    assert!(snap.iter().all(|r| r.id != "a"));
}

#[test]
fn removing_an_absent_id_is_no_error() {
    let mut s = SchedulerState::new(60);
    s.apply(ControlMessage::AddRoute(mk_route("a", 60)));
    s.apply(ControlMessage::RemoveRoute("ghost".to_string()));
    assert_eq!(s.snapshot().len(), 1);
    assert!(!s.stopped);
}

#[test]
fn shutdown_ends_the_scheduler() {
    let mut s = SchedulerState::new(60);
    s.apply(ControlMessage::AddRoute(mk_route("a", 60)));
    s.apply(ControlMessage::Shutdown);
    assert!(s.stopped);
    assert_eq!(s.snapshot().len(), 1);
}
