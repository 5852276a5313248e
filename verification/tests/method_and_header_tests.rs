use uptime_worker::headers::sanitize_headers;
use uptime_worker::method::HttpMethod;
use uptime_worker::method::method_of;
use uptime_worker::route::Header;

#[test]
fn methods_resolve_case_insensitively() {
    assert_eq!(method_of("GET"), HttpMethod::Get);
    assert_eq!(method_of("get"), HttpMethod::Get);
    assert_eq!(method_of("PoSt"), HttpMethod::Post);
    assert_eq!(method_of("put"), HttpMethod::Put);
    assert_eq!(method_of("DELETE"), HttpMethod::Delete);
    assert_eq!(method_of("patch"), HttpMethod::Patch);
    assert_eq!(method_of("Head"), HttpMethod::Head);
    assert_eq!(method_of("options"), HttpMethod::Options);
}

#[test]
fn unknown_methods_default_to_get() {
    assert_eq!(method_of("BREW"), HttpMethod::Get);
    assert_eq!(method_of(""), HttpMethod::Get);
    assert_eq!(method_of("POSTS"), HttpMethod::Get);
    assert_eq!(method_of("GE T"), HttpMethod::Get);
}

fn h(name: &str, value: &str) -> Header {
    Header { name: name.to_string(), value: value.to_string() }
}

#[test]
fn valid_headers_are_kept_in_order() {
    let hs = vec![h("X-Custom", "one"), h("content-type", "application/json")];
    let out = sanitize_headers(&hs);
    assert_eq!(out.len(), 2);
    assert_eq!(out[0].name, "X-Custom");
    assert_eq!(out[0].value, "one");
    assert_eq!(out[1].name, "content-type");
}

#[test]
fn malformed_entries_are_dropped_individually() {
    let hs = vec![
        h("ok-header", "fine"),
        h("bad name", "fine"),
        h("", "fine"),
        h("ok-too", "bad\nvalue"),
        h("kept", "also fine"),
    ];
    let out = sanitize_headers(&hs);
    assert_eq!(out.len(), 2);
    assert_eq!(out[0].name, "ok-header");
    assert_eq!(out[1].name, "kept");
}
