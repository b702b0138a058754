use gateway_routing::api::{GetRoutesRequest, HealthRequest, HttpRoute, UpdateRoutesRequest};
use gateway_routing::api::{Backend, HttpRouteRule};
use gateway_routing::router::Router;
use gateway_routing::routing_service::RoutingServiceImpl;
use gateway_routing::store::RouteStore;

fn make_http_route(id: &str, hostnames: Vec<&str>) -> HttpRoute {
    HttpRoute {
        id: id.to_string(),
        hostnames: hostnames.into_iter().map(String::from).collect(),
        rules: vec![],
    }
}

fn route_to(id: &str, host: &str, address: &str) -> HttpRoute {
    HttpRoute {
        id: id.to_string(),
        hostnames: vec![host.to_string()],
        rules: vec![HttpRouteRule {
            matches: vec![],
            backends: vec![Backend { address: address.to_string(), weight: 1, protocol: 0 }],
            timeout_ms: 0,
        }],
    }
}

#[test]
fn test_health_returns_healthy() {
    let store = RouteStore::new();
    let service = RoutingServiceImpl::new(store);
    let health = service.health(HealthRequest {});
    assert!(health.healthy);
    assert_eq!(health.status, "ready");
    assert_eq!(health.config_version, 0);
}

#[test]
fn test_update_routes_empty() {
    let store = RouteStore::new();
    let mut service = RoutingServiceImpl::new(store);
    let update = service.update_routes(UpdateRoutesRequest {
        http_routes: vec![],
        grpc_routes: vec![],
        version: 1,
    });
    assert!(update.success);
    assert_eq!(update.applied_version, 1);
    assert_eq!(update.http_route_count, 0);
    assert_eq!(update.grpc_route_count, 0);
}

#[test]
fn test_update_routes_with_data() {
    let store = RouteStore::new();
    let mut service = RoutingServiceImpl::new(store);
    let update = service.update_routes(UpdateRoutesRequest {
        http_routes: vec![
            make_http_route("default/route1", vec!["a.example.com"]),
            make_http_route("default/route2", vec!["b.example.com"]),
        ],
        grpc_routes: vec![],
        version: 5,
    });
    assert!(update.success);
    assert_eq!(update.applied_version, 5);
    assert_eq!(update.http_route_count, 2);
    assert_eq!(update.grpc_route_count, 0);
}

#[test]
fn test_get_routes_after_update() {
    let store = RouteStore::new();
    let mut service = RoutingServiceImpl::new(store);
    service.update_routes(UpdateRoutesRequest {
        http_routes: vec![make_http_route("default/route1", vec!["example.com"])],
        grpc_routes: vec![],
        version: 3,
    });
    let routes = service.get_routes(GetRoutesRequest {});
    assert_eq!(routes.http_routes.len(), 1);
    assert_eq!(routes.http_routes[0].id, "default/route1");
    assert_eq!(routes.version, 3);
}

#[test]
fn test_version_increments() {
    let store = RouteStore::new();
    let mut service = RoutingServiceImpl::new(store);
    let health1 = service.health(HealthRequest {});
    assert_eq!(health1.config_version, 0);
    service.update_routes(UpdateRoutesRequest {
        http_routes: vec![],
        grpc_routes: vec![],
        version: 10,
    });
    let health2 = service.health(HealthRequest {});
    assert_eq!(health2.config_version, 10);
}

#[test]
fn test_routes_shared_with_store() {
    let store = RouteStore::new();
    let mut service = RoutingServiceImpl::new(store);
    service.update_routes(UpdateRoutesRequest {
        http_routes: vec![make_http_route("default/route1", vec!["example.com"])],
        grpc_routes: vec![],
        version: 1,
    });
    // The store given to the service is the one the sync updated.
    let store = service.into_store();
    assert_eq!(store.version(), 1);
    assert_eq!(store.route_count(), (1, 0));
}

#[test]
fn test_routing_answers_from_each_sync() {
    let mut service = RoutingServiceImpl::new(RouteStore::new());
    service.update_routes(UpdateRoutesRequest {
        http_routes: vec![route_to("r1", "example.com", "v1:8080")],
        grpc_routes: vec![],
        version: 1,
    });
    let router = Router::new(service.store());
    assert_eq!(router.find_backend("example.com", "/").unwrap().address, "v1:8080");
    service.update_routes(UpdateRoutesRequest {
        http_routes: vec![route_to("r1", "example.com", "v2:8080")],
        grpc_routes: vec![],
        version: 2,
    });
    let router = Router::new(service.store());
    assert_eq!(router.find_backend("example.com", "/").unwrap().address, "v2:8080");
    service.update_routes(UpdateRoutesRequest { http_routes: vec![], grpc_routes: vec![], version: 3 });
    assert!(Router::new(service.store()).find_backend("example.com", "/").is_none());
}

#[test]
fn test_sync_keeps_last_route_of_each_id() {
    let mut service = RoutingServiceImpl::new(RouteStore::new());
    service.update_routes(UpdateRoutesRequest {
        http_routes: vec![
            route_to("a", "example.com", "first:8080"),
            route_to("b", "other.com", "b:8080"),
            route_to("a", "example.com", "last:8080"),
        ],
        grpc_routes: vec![],
        version: 4,
    });
    assert_eq!(service.store().route_count(), (2, 0));
    let router = Router::new(service.store());
    assert_eq!(router.find_backend("example.com", "/").unwrap().address, "last:8080");
}

#[test]
fn test_update_counts_sent_routes_and_error_empty() {
    let mut service = RoutingServiceImpl::new(RouteStore::new());
    let update = service.update_routes(UpdateRoutesRequest {
        http_routes: vec![make_http_route("dup", vec![]), make_http_route("dup", vec![])],
        grpc_routes: vec![],
        version: 2,
    });
    // The counts report what was sent; the store keeps one route per id.
    assert_eq!(update.http_route_count, 2);
    assert!(update.error.is_empty());
    assert_eq!(service.store().route_count(), (1, 0));
}
