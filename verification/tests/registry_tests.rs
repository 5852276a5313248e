use uptime_worker::registry::Registry;
use uptime_worker::route::Route;

fn mk_route(id: &str, interval: i32) -> Route {
    Route {
        id: id.to_string(),
        name: format!("route {}", id),
        url: format!("http://example.test/{}", id),
        method: "GET".to_string(),
        headers: Vec::new(),
        body: None,
        expected_status: None,
        time_threshold: None,
        interval,
        retries: None,
        alert_email: None,
        is_active: true,
    }
}

#[test]
fn everything_is_new_on_first_diff() {
    let mut reg = Registry::new();
    let fetched = vec![mk_route("a", 30), mk_route("b", 60)];
    let (fresh, removals) = reg.diff(&fetched);
    assert_eq!(fresh.len(), 2);
    assert_eq!(fresh[0].id, "a");
    assert_eq!(fresh[1].id, "b");
    assert!(removals.is_empty());
}

#[test]
fn diff_of_unchanged_set_is_idempotent() {
    let mut reg = Registry::new();
    let fetched = vec![mk_route("a", 30), mk_route("b", 60)];
    for r in &fetched {
        reg.control_channel_for(r.interval);
        reg.register(r);
    }
    let (fresh1, removals1) = reg.diff(&fetched);
    assert!(fresh1.is_empty());
    assert!(removals1.is_empty());
    let (fresh2, removals2) = reg.diff(&fetched);
    assert!(fresh2.is_empty());
    assert!(removals2.is_empty());
}

#[test]
fn vanished_route_is_evicted_with_its_interval() {
    let mut reg = Registry::new();
    let a = mk_route("a", 30);
    let b = mk_route("b", 60);
    reg.register(&a);
    reg.register(&b);
    let fetched = vec![mk_route("b", 60)];
    let (fresh, removals) = reg.diff(&fetched);
    assert!(fresh.is_empty());
    assert_eq!(removals.len(), 1);
    assert_eq!(removals[0].id, "a");
    assert_eq!(removals[0].interval, 30);
    // The evicted id is gone: a second diff with it back reports it as new.
    let fetched2 = vec![mk_route("a", 30), mk_route("b", 60)];
    let (fresh2, _) = reg.diff(&fetched2);
    assert_eq!(fresh2.len(), 1);
    assert_eq!(fresh2[0].id, "a");
}

#[test]
fn one_channel_per_interval() {
    let mut reg = Registry::new();
    assert!(reg.control_channel_for(60));
    assert!(!reg.control_channel_for(60));
    assert!(reg.control_channel_for(30));
    assert!(!reg.control_channel_for(60));
    assert!(!reg.control_channel_for(30));
}

#[test]
fn integrate_spawns_one_scheduler_for_a_new_interval() {
    let mut reg = Registry::new();
    let fetched = vec![mk_route("fresh", 60)];
    let plan = reg.integrate(&fetched);
    assert_eq!(plan.new_routes.len(), 1);
    assert_eq!(plan.new_routes[0].id, "fresh");
    assert!(plan.removals.is_empty());
    assert_eq!(plan.spawn_intervals, vec![60]);
    // The same fetch again: nothing new, nothing spawned.
    let plan2 = reg.integrate(&fetched);
    assert!(plan2.new_routes.is_empty());
    assert!(plan2.removals.is_empty());
    assert!(plan2.spawn_intervals.is_empty());
}

#[test]
fn integrate_shares_channels_between_routes_of_one_interval() {
    let mut reg = Registry::new();
    let fetched = vec![mk_route("a", 60), mk_route("b", 60), mk_route("c", 30)];
    let plan = reg.integrate(&fetched);
    assert_eq!(plan.new_routes.len(), 3);
    assert_eq!(plan.spawn_intervals, vec![60, 30]);
}

#[test]
fn interval_change_of_a_live_id_is_not_detected() {
    // Known limitation: the diff keys on id membership alone, so the same
    // id reappearing with another interval is neither new nor removed.
    let mut reg = Registry::new();
    let a30 = mk_route("a", 30);
    reg.integrate(&vec![a30]);
    let a60 = mk_route("a", 60);
    let plan = reg.integrate(&vec![a60]);
    assert!(plan.new_routes.is_empty());
    assert!(plan.removals.is_empty());
    assert_eq!(reg.routes.len(), 1);
    assert_eq!(reg.routes[0].interval, 30);
}
