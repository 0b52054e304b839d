use route_resolver::boundary::{
    op_add_route, op_batch_add_routes, op_clear_cache, op_create, op_get_stats, op_match,
    Envelope, TextInput,
};
use route_resolver::get_router_capabilities;
use route_resolver::router::Router;

fn text(s: &str) -> TextInput {
    TextInput::Text(s.to_string())
}

fn payload_of(e: Envelope) -> String {
    assert_eq!(e.status, 0);
    e.release().unwrap()
}

#[test]
fn create_returns_ok() {
    let mut r = Router::new();
    let e = op_create(&mut r);
    assert_eq!(e.status, 0);
    assert_eq!(e.release().unwrap(), "OK");
}

#[test]
fn create_resets_everything() {
    let mut r = Router::new();
    op_add_route(&mut r, &text("GET"), &text("/a"), &text("h"));
    r.match_route("GET", "/a");
    op_create(&mut r);
    let e = op_match(&mut r, &text("GET"), &text("/a"));
    assert_eq!(e.status, -404);
    let s = r.get_stats();
    assert_eq!(s.method_count, 0);
    assert_eq!(s.cache_size, 0);
}

#[test]
fn add_route_status_codes() {
    let mut r = Router::new();
    assert_eq!(op_add_route(&mut r, &TextInput::Absent, &text("/a"), &text("h")).status, -1);
    assert_eq!(op_add_route(&mut r, &text("GET"), &TextInput::Absent, &text("h")).status, -1);
    assert_eq!(op_add_route(&mut r, &text("GET"), &text("/a"), &TextInput::Absent).status, -1);
    assert_eq!(op_add_route(&mut r, &TextInput::Invalid, &text("/a"), &text("h")).status, -2);
    assert_eq!(op_add_route(&mut r, &text("GET"), &TextInput::Invalid, &text("h")).status, -3);
    assert_eq!(op_add_route(&mut r, &text("GET"), &text("/a"), &TextInput::Invalid).status, -4);
    assert_eq!(op_add_route(&mut r, &text("GET"), &text("no-slash"), &text("h")).status, -5);
    let ok = op_add_route(&mut r, &text("GET"), &text("/a"), &text("h"));
    assert_eq!(ok.status, 0);
    assert_eq!(ok.release().unwrap(), "OK");
    // Registering the same pattern again is a conflict.
    assert_eq!(op_add_route(&mut r, &text("GET"), &text("/a"), &text("h2")).status, -5);
}

#[test]
fn match_status_codes() {
    let mut r = Router::new();
    op_add_route(&mut r, &text("GET"), &text("/a"), &text("h"));
    assert_eq!(op_match(&mut r, &TextInput::Absent, &text("/a")).status, -1);
    assert_eq!(op_match(&mut r, &text("GET"), &TextInput::Absent).status, -1);
    assert_eq!(op_match(&mut r, &TextInput::Invalid, &text("/a")).status, -2);
    assert_eq!(op_match(&mut r, &text("GET"), &TextInput::Invalid).status, -3);
    assert_eq!(op_match(&mut r, &text("PUT"), &text("/a")).status, -404);
    assert_eq!(op_match(&mut r, &text("GET"), &text("/missing")).status, -404);
    assert_eq!(op_match(&mut r, &text("GET"), &text("/a")).status, 0);
}

#[test]
fn match_payload_format() {
    let mut r = Router::new();
    op_add_route(&mut r, &text("GET"), &text("/users/:id"), &text("h1"));
    let e = op_match(&mut r, &text("GET"), &text("/users/42"));
    assert_eq!(payload_of(e), "{\"handler\":\"h1\",\"params\":{\"id\":\"42\"}}");
    op_add_route(&mut r, &text("GET"), &text("/plain"), &text("h2"));
    let e2 = op_match(&mut r, &text("GET"), &text("/plain"));
    assert_eq!(payload_of(e2), "{\"handler\":\"h2\",\"params\":{}}");
}

#[test]
fn match_payload_escapes_strings() {
    let mut r = Router::new();
    op_add_route(&mut r, &text("GET"), &text("/q/:v"), &text("a\"b\\c\nd"));
    let e = op_match(&mut r, &text("GET"), &text("/q/x y"));
    assert_eq!(
        payload_of(e),
        "{\"handler\":\"a\\\"b\\\\c\\u000ad\",\"params\":{\"v\":\"x y\"}}"
    );
}

#[test]
fn stats_payload_format() {
    let mut r = Router::new();
    op_add_route(&mut r, &text("GET"), &text("/a"), &text("h"));
    let e = op_get_stats(&r);
    assert_eq!(
        payload_of(e),
        "{\"method_count\":1,\"route_count\":1,\"cache_size\":0,\"cache_capacity\":1000}"
    );
}

#[test]
fn clear_cache_returns_ok() {
    let mut r = Router::new();
    let e = op_clear_cache(&mut r);
    assert_eq!(e.status, 0);
    assert_eq!(e.release().unwrap(), "OK");
}

#[test]
fn batch_partial_success() {
    let mut r = Router::new();
    let body = "[{\"method\":\"GET\",\"path\":\"/a\",\"handler\":\"h1\"},{\"method\":\"GET\",\"path\":\"bad\",\"handler\":\"h2\"},{\"method\":\"POST\",\"path\":\"/b/:x\",\"handler\":\"h3\"}]";
    let e = op_batch_add_routes(&mut r, &text(body));
    assert_eq!(e.status, 0);
    assert_eq!(e.release().unwrap(), "{\"added\":2,\"total\":3}");
    // The valid routes are all subsequently matchable.
    assert_eq!(r.match_route("GET", "/a").unwrap().handler, "h1");
    assert_eq!(r.match_route("POST", "/b/9").unwrap().handler, "h3");
    assert!(r.match_route("GET", "bad").is_none());
}

#[test]
fn batch_skips_incomplete_entries() {
    let mut r = Router::new();
    let body = "[{\"method\":\"GET\",\"path\":\"/a\",\"handler\":\"h1\"},{\"method\":5,\"path\":\"/b\",\"handler\":\"h2\"},{\"path\":\"/c\",\"handler\":\"h3\"},{\"method\":\"GET\",\"handler\":\"h4\"}]";
    let e = op_batch_add_routes(&mut r, &text(body));
    assert_eq!(e.release().unwrap(), "{\"added\":1,\"total\":4}");
}

#[test]
fn batch_status_codes() {
    let mut r = Router::new();
    assert_eq!(op_batch_add_routes(&mut r, &TextInput::Absent).status, -1);
    assert_eq!(op_batch_add_routes(&mut r, &TextInput::Invalid).status, -2);
    assert_eq!(op_batch_add_routes(&mut r, &text("{}")).status, -3);
    assert_eq!(op_batch_add_routes(&mut r, &text("not json")).status, -3);
    assert_eq!(op_batch_add_routes(&mut r, &text("[]")).status, 0);
}

#[test]
fn release_of_error_envelope_is_empty() {
    let mut r = Router::new();
    let e = op_match(&mut r, &text("GET"), &text("/missing"));
    assert_eq!(e.status, -404);
    // An error envelope carries no payload: releasing it hands nothing out.
    assert!(e.release().is_none());
}

#[test]
fn release_of_success_envelope_hands_out_payload() {
    let mut r = Router::new();
    let e = op_create(&mut r);
    let p = e.release();
    assert_eq!(p, Some("OK".to_string()));
}

#[test]
fn capabilities_flags() {
    assert_eq!(get_router_capabilities(), 15);
    assert_eq!(get_router_capabilities(), 1 | 2 | 4 | 8);
}
