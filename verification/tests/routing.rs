use route_resolver::pattern::RouteError;
use route_resolver::router::Router;

fn params_of(r: &route_resolver::table::MatchResult) -> Vec<(String, String)> {
    r.params.clone()
}

#[test]
fn static_route_matches() {
    let mut r = Router::new();
    r.add_route("GET", "/users/all", "h1").unwrap();
    let m = r.match_route("GET", "/users/all").unwrap();
    assert_eq!(m.handler, "h1");
    assert!(m.params.is_empty());
}

#[test]
fn param_route_captures_in_order() {
    let mut r = Router::new();
    r.add_route("GET", "/a/:x/:y", "h").unwrap();
    let m = r.match_route("GET", "/a/one/two").unwrap();
    assert_eq!(m.handler, "h");
    assert_eq!(
        params_of(&m),
        vec![
            ("x".to_string(), "one".to_string()),
            ("y".to_string(), "two".to_string()),
        ]
    );
}

#[test]
fn static_beats_param() {
    let mut r = Router::new();
    r.add_route("GET", "/users/:id", "param_handler").unwrap();
    r.add_route("GET", "/users/new", "static_handler").unwrap();
    let m = r.match_route("GET", "/users/new").unwrap();
    assert_eq!(m.handler, "static_handler");
    let m2 = r.match_route("GET", "/users/42").unwrap();
    assert_eq!(m2.handler, "param_handler");
    assert_eq!(params_of(&m2), vec![("id".to_string(), "42".to_string())]);
}

#[test]
fn param_beats_catch_all() {
    let mut r = Router::new();
    r.add_route("GET", "/x/:a", "p").unwrap();
    r.add_route("GET", "/x/*rest", "c").unwrap();
    let m = r.match_route("GET", "/x/y").unwrap();
    assert_eq!(m.handler, "p");
    let m2 = r.match_route("GET", "/x/y/z").unwrap();
    assert_eq!(m2.handler, "c");
    assert_eq!(params_of(&m2), vec![("rest".to_string(), "y/z".to_string())]);
}

#[test]
fn catch_all_takes_remainder() {
    let mut r = Router::new();
    r.add_route("GET", "/files/*path", "f").unwrap();
    let m = r.match_route("GET", "/files/a/b/c").unwrap();
    assert_eq!(params_of(&m), vec![("path".to_string(), "a/b/c".to_string())]);
}

#[test]
fn param_rejects_empty_segment() {
    let mut r = Router::new();
    r.add_route("GET", "/users/:id", "h").unwrap();
    assert!(r.match_route("GET", "/users/").is_none());
}

#[test]
fn full_length_must_match() {
    let mut r = Router::new();
    r.add_route("GET", "/a/b", "h").unwrap();
    assert!(r.match_route("GET", "/a").is_none());
    assert!(r.match_route("GET", "/a/b/c").is_none());
}

#[test]
fn unregistered_method_not_found() {
    let mut r = Router::new();
    r.add_route("GET", "/a", "h").unwrap();
    assert!(r.match_route("DELETE", "/a").is_none());
}

#[test]
fn methods_are_separate() {
    let mut r = Router::new();
    r.add_route("GET", "/a", "get_h").unwrap();
    r.add_route("POST", "/a", "post_h").unwrap();
    assert_eq!(r.match_route("GET", "/a").unwrap().handler, "get_h");
    assert_eq!(r.match_route("POST", "/a").unwrap().handler, "post_h");
}

#[test]
fn invalid_patterns_rejected() {
    let mut r = Router::new();
    assert_eq!(r.add_route("GET", "users", "h"), Err(RouteError::InvalidPattern));
    assert_eq!(r.add_route("GET", "", "h"), Err(RouteError::InvalidPattern));
    assert_eq!(r.add_route("GET", "/a/:", "h"), Err(RouteError::InvalidPattern));
    assert_eq!(r.add_route("GET", "/a/*", "h"), Err(RouteError::InvalidPattern));
    assert_eq!(r.add_route("GET", "/a/*r/b", "h"), Err(RouteError::InvalidPattern));
}

#[test]
fn duplicate_shape_conflicts() {
    let mut r = Router::new();
    r.add_route("GET", "/users/:id", "h1").unwrap();
    assert_eq!(
        r.add_route("GET", "/users/:id", "h2"),
        Err(RouteError::PatternConflict)
    );
    assert_eq!(
        r.add_route("GET", "/users/:name", "h3"),
        Err(RouteError::PatternConflict)
    );
    // The failed registrations left the original route in place.
    assert_eq!(r.match_route("GET", "/users/7").unwrap().handler, "h1");
}

#[test]
fn cache_transparency_under_clear() {
    let mut r = Router::new();
    r.add_route("GET", "/users/:id", "h").unwrap();
    let warm = r.match_route("GET", "/users/42").unwrap();
    let cached = r.match_route("GET", "/users/42").unwrap();
    assert_eq!(cached.handler, warm.handler);
    assert_eq!(params_of(&cached), params_of(&warm));
    r.clear_cache();
    let cold = r.match_route("GET", "/users/42").unwrap();
    assert_eq!(cold.handler, warm.handler);
    assert_eq!(params_of(&cold), params_of(&warm));
}

#[test]
fn clear_cache_twice_is_once() {
    let mut r = Router::new();
    r.add_route("GET", "/a/:x", "h").unwrap();
    r.match_route("GET", "/a/1");
    r.clear_cache();
    let s1 = r.get_stats();
    r.clear_cache();
    let s2 = r.get_stats();
    assert_eq!(s1.cache_size, 0);
    assert_eq!(s2.cache_size, 0);
    assert_eq!(s1.method_count, s2.method_count);
    assert_eq!(r.match_route("GET", "/a/1").unwrap().handler, "h");
}

#[test]
fn cache_size_never_exceeds_capacity() {
    let mut r = Router::new();
    r.add_route("GET", "/:x", "h").unwrap();
    for i in 0..1100 {
        let p = format!("/p{}", i);
        assert!(r.match_route("GET", &p).is_some());
    }
    let s = r.get_stats();
    assert_eq!(s.cache_capacity, 1000);
    assert_eq!(s.cache_size, 1000);
    assert!(s.cache_size <= s.cache_capacity);
    // A full cache still resolves fresh requests correctly.
    assert!(r.match_route("GET", "/p1099").is_some());
}

#[test]
fn stats_counts() {
    let mut r = Router::new();
    let s0 = r.get_stats();
    assert_eq!(s0.method_count, 0);
    assert_eq!(s0.route_count, 0);
    assert_eq!(s0.cache_size, 0);
    assert_eq!(s0.cache_capacity, 1000);
    r.add_route("GET", "/a", "h").unwrap();
    r.add_route("GET", "/b", "h").unwrap();
    r.add_route("POST", "/a", "h").unwrap();
    let s = r.get_stats();
    assert_eq!(s.method_count, 2);
    // The reported route count is the method count, an approximation.
    assert_eq!(s.route_count, 2);
    r.match_route("GET", "/a");
    assert_eq!(r.get_stats().cache_size, 1);
}
