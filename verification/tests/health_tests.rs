use gateway_routing::health::health_handler;

#[test]
fn test_healthz_returns_ok() {
    let response = health_handler("/healthz");
    assert_eq!(response.status, 200);
    assert_eq!(response.body, "ok");
}

#[test]
fn test_readyz_returns_ok() {
    let response = health_handler("/readyz");
    assert_eq!(response.status, 200);
    assert_eq!(response.body, "ok");
}

#[test]
fn test_unknown_path_returns_404() {
    let response = health_handler("/foo");
    assert_eq!(response.status, 404);
}

#[test]
fn test_probe_paths_are_exact() {
    assert_eq!(health_handler("/healthz/").status, 404);
    assert_eq!(health_handler("/HEALTHZ").status, 404);
    assert_eq!(health_handler("").status, 404);
    assert_eq!(health_handler("/foo").body, "not found");
}
