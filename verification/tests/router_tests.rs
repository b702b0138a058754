use gateway_routing::api::{
    Backend, BackendProtocol, HttpRoute, HttpRouteMatch, HttpRouteRule, PathMatch, PathMatchType,
};
use gateway_routing::router::Router;
use gateway_routing::store::RouteStore;

// ========== Test Helpers ==========

fn make_backend(address: &str, weight: u32) -> Backend {
    Backend {
        address: address.to_string(),
        weight,
        protocol: BackendProtocol::Http.as_i32(),
    }
}

fn make_path_match(match_type: PathMatchType, value: &str) -> PathMatch {
    PathMatch {
        match_type: match_type.as_i32(),
        value: value.to_string(),
    }
}

fn make_route_match(path: Option<PathMatch>) -> HttpRouteMatch {
    HttpRouteMatch {
        path,
        method: String::new(),
    }
}

fn make_rule(matches: Vec<HttpRouteMatch>, backends: Vec<Backend>) -> HttpRouteRule {
    HttpRouteRule {
        matches,
        backends,
        timeout_ms: 0,
    }
}

fn make_route(id: &str, hostnames: Vec<&str>, rules: Vec<HttpRouteRule>) -> HttpRoute {
    HttpRoute {
        id: id.to_string(),
        hostnames: hostnames.into_iter().map(String::from).collect(),
        rules,
    }
}

fn make_route_with_path(
    id: &str,
    hostnames: Vec<&str>,
    match_type: PathMatchType,
    path: &str,
    backend_addr: &str,
) -> HttpRoute {
    make_route(
        id,
        hostnames,
        vec![make_rule(
            vec![make_route_match(Some(make_path_match(match_type, path)))],
            vec![make_backend(backend_addr, 1)],
        )],
    )
}

fn make_route_with_backend(id: &str, hostnames: Vec<&str>, path: &str, backend_addr: &str) -> HttpRoute {
    make_route_with_path(id, hostnames, PathMatchType::Prefix, path, backend_addr)
}

fn make_route_exact_path(id: &str, hostnames: Vec<&str>, path: &str, backend_addr: &str) -> HttpRoute {
    make_route_with_path(id, hostnames, PathMatchType::Exact, path, backend_addr)
}

fn make_route_prefix_path(id: &str, hostnames: Vec<&str>, path: &str, backend_addr: &str) -> HttpRoute {
    make_route_with_path(id, hostnames, PathMatchType::Prefix, path, backend_addr)
}

fn make_route_no_path(id: &str, hostnames: Vec<&str>, backend_addr: &str) -> HttpRoute {
    make_route(
        id,
        hostnames,
        vec![make_rule(vec![make_route_match(None)], vec![make_backend(backend_addr, 1)])],
    )
}

fn make_route_multi_backends(id: &str, hostnames: Vec<&str>, path: &str, backends: Vec<(&str, u32)>) -> HttpRoute {
    make_route(
        id,
        hostnames,
        vec![make_rule(
            vec![make_route_match(Some(make_path_match(PathMatchType::Prefix, path)))],
            backends
                .into_iter()
                .map(|(addr, weight)| make_backend(addr, weight))
                .collect(),
        )],
    )
}

fn store_with(routes: Vec<HttpRoute>) -> RouteStore {
    let mut store = RouteStore::new();
    store.update_routes(routes, vec![], 1);
    store
}

// ========== Phase 1: Setup & Basic Matching ==========

#[test]
fn test_router_new_with_empty_store() {
    let store = RouteStore::new();
    let router = Router::new(&store);
    assert!(router.find_backend("example.com", "/").is_none());
}

#[test]
fn test_router_is_send_and_sync() {
    fn assert_send_sync<T: Send + Sync>() {}
    assert_send_sync::<Router<'static>>();
}

#[test]
fn test_exact_hostname_match() {
    let store = store_with(vec![make_route_with_backend("r1", vec!["example.com"], "/", "backend:8080")]);
    let router = Router::new(&store);
    let result = router.find_backend("example.com", "/");
    assert!(result.is_some());
    assert_eq!(result.unwrap().address, "backend:8080");
}

#[test]
fn test_hostname_no_match_returns_none() {
    let store = store_with(vec![make_route_with_backend("r1", vec!["example.com"], "/", "backend:8080")]);
    let router = Router::new(&store);
    assert!(router.find_backend("other.com", "/").is_none());
}

#[test]
fn test_empty_hostname_matches_all() {
    let store = store_with(vec![make_route_with_backend("r1", vec![], "/", "catchall:8080")]);
    let router = Router::new(&store);
    assert!(router.find_backend("any.host.com", "/").is_some());
    assert!(router.find_backend("another.example.org", "/").is_some());
}

// ========== Phase 2: Wildcard Hostnames ==========

#[test]
fn test_wildcard_hostname_match() {
    let store = store_with(vec![make_route_with_backend("r1", vec!["*.example.com"], "/", "backend:8080")]);
    let router = Router::new(&store);
    assert!(router.find_backend("foo.example.com", "/").is_some());
    assert!(router.find_backend("bar.example.com", "/").is_some());
    // Wildcard does NOT match the bare domain
    assert!(router.find_backend("example.com", "/").is_none());
    // Wildcard does NOT match multiple levels
    assert!(router.find_backend("foo.bar.example.com", "/").is_none());
}

#[test]
fn test_exact_hostname_beats_wildcard() {
    let store = store_with(vec![
        make_route_with_backend("r1", vec!["*.example.com"], "/", "wildcard:8080"),
        make_route_with_backend("r2", vec!["api.example.com"], "/", "exact:8080"),
    ]);
    let router = Router::new(&store);
    let result = router.find_backend("api.example.com", "/");
    assert_eq!(result.unwrap().address, "exact:8080");
    let result = router.find_backend("other.example.com", "/");
    assert_eq!(result.unwrap().address, "wildcard:8080");
}

#[test]
fn test_multiple_hostnames_in_route() {
    let store = store_with(vec![make_route_with_backend("r1", vec!["a.com", "b.com"], "/", "backend:8080")]);
    let router = Router::new(&store);
    assert!(router.find_backend("a.com", "/").is_some());
    assert!(router.find_backend("b.com", "/").is_some());
    assert!(router.find_backend("c.com", "/").is_none());
}

// ========== Phase 3: Path Matching ==========

#[test]
fn test_exact_path_match() {
    let store = store_with(vec![make_route_exact_path("r1", vec!["example.com"], "/api/v1", "backend:8080")]);
    let router = Router::new(&store);
    assert!(router.find_backend("example.com", "/api/v1").is_some());
    assert!(router.find_backend("example.com", "/api/v1/users").is_none());
    assert!(router.find_backend("example.com", "/api").is_none());
}

#[test]
fn test_prefix_path_match() {
    let store = store_with(vec![make_route_prefix_path("r1", vec!["example.com"], "/api", "backend:8080")]);
    let router = Router::new(&store);
    assert!(router.find_backend("example.com", "/api").is_some());
    assert!(router.find_backend("example.com", "/api/").is_some());
    assert!(router.find_backend("example.com", "/api/v1").is_some());
    assert!(router.find_backend("example.com", "/api/v1/users").is_some());
    assert!(router.find_backend("example.com", "/other").is_none());
}

#[test]
fn test_prefix_requires_segment_boundary() {
    let store = store_with(vec![make_route_prefix_path("r1", vec!["example.com"], "/api", "backend:8080")]);
    let router = Router::new(&store);
    assert!(router.find_backend("example.com", "/api").is_some());
    assert!(router.find_backend("example.com", "/api/").is_some());
    assert!(router.find_backend("example.com", "/apikeys").is_none());
}

#[test]
fn test_longer_prefix_wins() {
    let store = store_with(vec![
        make_route_prefix_path("r1", vec!["example.com"], "/api", "short:8080"),
        make_route_prefix_path("r2", vec!["example.com"], "/api/v1", "long:8080"),
    ]);
    let router = Router::new(&store);
    let result = router.find_backend("example.com", "/api/v1/users");
    assert_eq!(result.unwrap().address, "long:8080");
    let result = router.find_backend("example.com", "/api/v2");
    assert_eq!(result.unwrap().address, "short:8080");
}

#[test]
fn test_exact_path_beats_prefix() {
    let store = store_with(vec![
        make_route_prefix_path("r1", vec!["example.com"], "/api", "prefix:8080"),
        make_route_exact_path("r2", vec!["example.com"], "/api/health", "exact:8080"),
    ]);
    let router = Router::new(&store);
    let result = router.find_backend("example.com", "/api/health");
    assert_eq!(result.unwrap().address, "exact:8080");
    let result = router.find_backend("example.com", "/api/users");
    assert_eq!(result.unwrap().address, "prefix:8080");
}

#[test]
fn test_no_path_match_means_match_all() {
    let store = store_with(vec![make_route_no_path("r1", vec!["example.com"], "catchall:8080")]);
    let router = Router::new(&store);
    assert!(router.find_backend("example.com", "/").is_some());
    assert!(router.find_backend("example.com", "/any/path").is_some());
    assert!(router.find_backend("example.com", "/deep/nested/path").is_some());
}

// ========== Phase 4: Multiple Rules & Backends ==========

#[test]
fn test_multiple_rules_first_match_wins() {
    let store = store_with(vec![make_route(
        "r1",
        vec!["example.com"],
        vec![
            make_rule(
                vec![make_route_match(Some(make_path_match(PathMatchType::Prefix, "/api")))],
                vec![make_backend("api:8080", 1)],
            ),
            make_rule(
                vec![make_route_match(Some(make_path_match(PathMatchType::Prefix, "/")))],
                vec![make_backend("default:8080", 1)],
            ),
        ],
    )]);
    let router = Router::new(&store);
    let result = router.find_backend("example.com", "/api/users");
    assert_eq!(result.unwrap().address, "api:8080");
    let result = router.find_backend("example.com", "/other");
    assert_eq!(result.unwrap().address, "default:8080");
}

#[test]
fn test_single_backend_always_selected() {
    let store = store_with(vec![make_route_with_backend("r1", vec!["example.com"], "/", "backend:8080")]);
    let router = Router::new(&store);
    let result = router.find_backend("example.com", "/");
    assert_eq!(result.unwrap().address, "backend:8080");
}

#[test]
fn test_multiple_backends_weighted_selection() {
    let store = store_with(vec![make_route_multi_backends(
        "r1",
        vec!["example.com"],
        "/",
        vec![("backend1:8080", 80), ("backend2:8080", 20)],
    )]);
    let router = Router::new(&store);
    let result = router.find_backend("example.com", "/");
    assert!(result.is_some());
    let addr = &result.unwrap().address;
    assert!(addr == "backend1:8080" || addr == "backend2:8080");
}

// ========== Phase 5: Edge Cases ==========

#[test]
fn test_host_with_port() {
    let store = store_with(vec![make_route_with_backend("r1", vec!["example.com"], "/", "backend:8080")]);
    let router = Router::new(&store);
    assert!(router.find_backend("example.com:443", "/").is_some());
    assert!(router.find_backend("example.com:8080", "/").is_some());
}

#[test]
fn test_case_insensitive_hostname() {
    let store = store_with(vec![make_route_with_backend("r1", vec!["Example.COM"], "/", "backend:8080")]);
    let router = Router::new(&store);
    assert!(router.find_backend("example.com", "/").is_some());
    assert!(router.find_backend("EXAMPLE.COM", "/").is_some());
    assert!(router.find_backend("Example.Com", "/").is_some());
}

// ========== Further cases ==========

#[test]
fn test_find_backend_among_first_of_equal_scores_wins() {
    let routes = vec![
        make_route_with_backend("r1", vec!["example.com"], "/", "first:8080"),
        make_route_with_backend("r2", vec!["example.com"], "/", "second:8080"),
    ];
    let result = Router::find_backend_among(&routes, "example.com", "/x");
    assert_eq!(result.unwrap().address, "first:8080");
    let reversed = vec![routes[1].clone(), routes[0].clone()];
    let result = Router::find_backend_among(&reversed, "example.com", "/x");
    assert_eq!(result.unwrap().address, "second:8080");
}

#[test]
fn test_hostname_score_ranks_before_path_score() {
    // An exact hostname with a catch-all path beats a wildcard hostname
    // with an exact path.
    let store = store_with(vec![
        make_route_exact_path("r1", vec!["*.example.com"], "/api/health", "wildcard-exact:8080"),
        make_route_prefix_path("r2", vec!["api.example.com"], "/", "exact-catchall:8080"),
    ]);
    let router = Router::new(&store);
    let result = router.find_backend("api.example.com", "/api/health");
    assert_eq!(result.unwrap().address, "exact-catchall:8080");
}

#[test]
fn test_empty_hostname_list_ranks_lowest() {
    let store = store_with(vec![
        make_route_with_backend("r1", vec![], "/", "catchall:8080"),
        make_route_with_backend("r2", vec!["*.example.com"], "/", "wildcard:8080"),
    ]);
    let router = Router::new(&store);
    assert_eq!(router.find_backend("a.example.com", "/").unwrap().address, "wildcard:8080");
    assert_eq!(router.find_backend("other.org", "/").unwrap().address, "catchall:8080");
}

#[test]
fn test_rule_without_backends_is_skipped() {
    let store = store_with(vec![
        make_route(
            "r1",
            vec!["example.com"],
            vec![make_rule(
                vec![make_route_match(Some(make_path_match(PathMatchType::Exact, "/api")))],
                vec![],
            )],
        ),
        make_route_with_backend("r2", vec!["example.com"], "/", "fallback:8080"),
    ]);
    let router = Router::new(&store);
    assert_eq!(router.find_backend("example.com", "/api").unwrap().address, "fallback:8080");
    let empty_store = store_with(vec![make_route("r1", vec!["example.com"], vec![make_rule(vec![], vec![])])]);
    let empty = Router::new(&empty_store);
    assert!(empty.find_backend("example.com", "/").is_none());
}

#[test]
fn test_regex_is_matched_as_prefix_below_prefix() {
    let store = store_with(vec![
        make_route_with_path("r1", vec!["example.com"], PathMatchType::Regex, "/api", "regex:8080"),
    ]);
    let router = Router::new(&store);
    assert_eq!(router.find_backend("example.com", "/api/users").unwrap().address, "regex:8080");
    assert!(router.find_backend("example.com", "/apikeys").is_none());
    let store = store_with(vec![
        make_route_with_path("r1", vec!["example.com"], PathMatchType::Regex, "/api/v1", "regex:8080"),
        make_route_prefix_path("r2", vec!["example.com"], "/", "prefix:8080"),
    ]);
    let router = Router::new(&store);
    assert_eq!(router.find_backend("example.com", "/api/v1").unwrap().address, "prefix:8080");
}

#[test]
fn test_unknown_match_type_matches_every_path() {
    let route = make_route(
        "r1",
        vec!["example.com"],
        vec![make_rule(
            vec![make_route_match(Some(PathMatch { match_type: 42, value: "/only".to_string() }))],
            vec![make_backend("any:8080", 1)],
        )],
    );
    let store = store_with(vec![route]);
    let router = Router::new(&store);
    assert_eq!(router.find_backend("example.com", "/elsewhere").unwrap().address, "any:8080");
}

#[test]
fn test_prefix_with_trailing_slash() {
    let store = store_with(vec![make_route_prefix_path("r1", vec!["example.com"], "/api/", "backend:8080")]);
    let router = Router::new(&store);
    assert!(router.find_backend("example.com", "/api/users").is_some());
    assert!(router.find_backend("example.com", "/api").is_none());
}

#[test]
fn test_wildcard_pattern_is_case_insensitive() {
    let store = store_with(vec![make_route_with_backend("r1", vec!["*.Example.COM"], "/", "backend:8080")]);
    let router = Router::new(&store);
    assert!(router.find_backend("FOO.example.com:8443", "/").is_some());
    assert!(router.find_backend("example.com", "/").is_none());
}

#[test]
fn test_pick_weighted_by_threshold() {
    let backends = vec![make_backend("a:8080", 2), make_backend("b:8080", 0), make_backend("c:8080", 3)];
    let picks: Vec<String> = (0..7).map(|t| Router::pick_weighted(&backends, t).address).collect();
    assert_eq!(
        picks,
        vec!["a:8080", "a:8080", "b:8080", "c:8080", "c:8080", "c:8080", "a:8080"]
    );
}

#[test]
fn test_weighted_selection_returns_listed_backend() {
    let store = store_with(vec![make_route_multi_backends(
        "r1",
        vec![],
        "/",
        vec![("a:8080", 1), ("b:8080", 0), ("c:8080", 5)],
    )]);
    let router = Router::new(&store);
    for _ in 0..50 {
        let addr = router.find_backend("x.org", "/").unwrap().address;
        assert!(addr == "a:8080" || addr == "b:8080" || addr == "c:8080");
    }
}

#[test]
fn test_fits_scoring_limits() {
    let ok = make_route_multi_backends("r1", vec!["example.com"], "/", vec![("a:1", 10), ("b:1", 0)]);
    assert!(Router::fits_scoring_limits(&ok));
    let heavy = make_route_multi_backends(
        "r2",
        vec![],
        "/",
        vec![("a:1", 3_000_000_000), ("b:1", 2_000_000_000)],
    );
    assert!(!Router::fits_scoring_limits(&heavy));
    let at_limit = make_route_multi_backends("r3", vec![], "/", vec![("a:1", u32::MAX - 1), ("b:1", 0)]);
    assert!(Router::fits_scoring_limits(&at_limit));
}

#[test]
fn test_weighted_selection_follows_weights() {
    let store = store_with(vec![make_route_multi_backends(
        "r1",
        vec![],
        "/",
        vec![("light:8080", 1), ("heavy:8080", 1000)],
    )]);
    let router = Router::new(&store);
    let heavy = (0..200)
        .filter(|_| router.find_backend("x.org", "/").unwrap().address == "heavy:8080")
        .count();
    assert!(heavy >= 150);
}

#[test]
fn test_prefix_boundary_counts_characters() {
    let store = store_with(vec![make_route_prefix_path("r1", vec!["example.com"], "/é", "accent:8080")]);
    let router = Router::new(&store);
    assert_eq!(router.find_backend("example.com", "/é/x").unwrap().address, "accent:8080");
    assert_eq!(router.find_backend("example.com", "/é").unwrap().address, "accent:8080");
    assert!(router.find_backend("example.com", "/éx").is_none());
}

#[test]
fn test_first_of_equal_rules_in_a_route_wins() {
    let pr = |p: &str, b: &str| {
        make_rule(
            vec![make_route_match(Some(make_path_match(PathMatchType::Prefix, p)))],
            vec![make_backend(b, 1)],
        )
    };
    let store = store_with(vec![make_route(
        "r1",
        vec!["example.com"],
        vec![pr("/", "d:8080"), pr("/api", "a1:8080"), pr("/api", "a2:8080")],
    )]);
    let router = Router::new(&store);
    for _ in 0..10 {
        assert_eq!(router.find_backend("example.com", "/api/users").unwrap().address, "a1:8080");
    }
    assert_eq!(router.find_backend("example.com", "/other").unwrap().address, "d:8080");
}

#[test]
fn test_router_reads_store_after_each_sync() {
    let mut store = RouteStore::new();
    store.update_routes(vec![make_route_with_backend("r1", vec!["example.com"], "/", "v1:8080")], vec![], 1);
    assert_eq!(Router::new(&store).find_backend("example.com", "/").unwrap().address, "v1:8080");
    store.update_routes(vec![make_route_with_backend("r1", vec!["example.com"], "/", "v2:8080")], vec![], 2);
    let router = Router::new(&store);
    assert_eq!(router.find_backend("example.com", "/").unwrap().address, "v2:8080");
}

#[test]
fn test_host_port_and_case_give_same_backend() {
    let store = store_with(vec![
        make_route_with_backend("r1", vec!["Example.COM"], "/", "exact:8080"),
        make_route_with_backend("r2", vec!["*.example.com"], "/", "wild:8080"),
    ]);
    let router = Router::new(&store);
    for host in ["example.com", "example.com:8080", "EXAMPLE.com", "Example.Com:443"] {
        assert_eq!(router.find_backend(host, "/").unwrap().address, "exact:8080");
    }
    for host in ["api.example.com", "API.Example.com:9000"] {
        assert_eq!(router.find_backend(host, "/").unwrap().address, "wild:8080");
    }
}

#[test]
fn test_lowered_hostname_matches() {
    assert!(Router::lowered_hostname_matches("example.com", "example.com"));
    assert!(!Router::lowered_hostname_matches("example.com", "www.example.com"));
    assert!(Router::lowered_hostname_matches("*.example.com", "foo.example.com"));
    assert!(!Router::lowered_hostname_matches("*.example.com", "example.com"));
    assert!(!Router::lowered_hostname_matches("*.example.com", "a.b.example.com"));
    assert!(!Router::lowered_hostname_matches("*.example.com", ".example.com"));
}
