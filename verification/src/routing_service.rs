//! The route management service: full syncs of the routing table pushed by
//! the controller, reads of the current table, and health reports.

use vstd::prelude::*;

use crate::api::{
    GetRoutesRequest, GetRoutesResponse, HealthRequest, HealthResponse, HttpRoute,
    UpdateRoutesRequest, UpdateRoutesResponse,
};
use crate::scoring::{rule_candidate, table_candidate};
use crate::store::{
    grpc_table_of, http_last_with_id, http_table_of, law_http_sync_keeps_last_of_each_id,
    lists_grpc_table, lists_http_table, RouteStore,
};

verus! {

broadcast use vstd::string::group_string_axioms;

/// Routing after a sync answers from the synced routes: in the table that
/// a sync of `routes` leaves in the store (and that a router over the store
/// then reads), rule `l` of the route filed under `id` serves a request
/// exactly when the last of `routes` that carries `id` has such a rule and
/// it matches the request.
pub proof fn law_routing_after_sync(routes: Seq<HttpRoute>, host: Seq<char>, path: Seq<char>)
    ensures
        forall|id: Seq<char>, l: int|
            #[trigger] table_candidate(http_table_of(routes), id, l, host, path) <==> exists|i: int|
                http_last_with_id(routes, i) && routes[i].id@ == id && rule_candidate(
                    routes[i],
                    l,
                    host,
                    path,
                ),
{
    let t = http_table_of(routes);
    law_http_sync_keeps_last_of_each_id(routes);
    assert forall|id: Seq<char>, l: int|
        #[trigger] table_candidate(t, id, l, host, path) <==> exists|i: int|
            http_last_with_id(routes, i) && routes[i].id@ == id && rule_candidate(
                routes[i],
                l,
                host,
                path,
            ) by {
        if table_candidate(t, id, l, host, path) {
            let i = choose|i: int| http_last_with_id(routes, i) && routes[i].id@ == id;
            assert(t[routes[i].id@] == routes[i]);
        }
        if exists|i: int|
            http_last_with_id(routes, i) && routes[i].id@ == id && rule_candidate(
                routes[i],
                l,
                host,
                path,
            ) {
            let i = choose|i: int|
                http_last_with_id(routes, i) && routes[i].id@ == id && rule_candidate(
                    routes[i],
                    l,
                    host,
                    path,
                );
            assert(t[routes[i].id@] == routes[i]);
            assert(t.dom().contains(id));
        }
    }
}

/// Route management over a route store: a full sync rewrites the store in
/// place, so every reader of the store (the request router among them)
/// answers from the synced table afterwards.
pub struct RoutingServiceImpl {
    store: RouteStore,
}

impl RoutingServiceImpl {
    /// The store this service manages.
    pub closed spec fn store_view(&self) -> RouteStore {
        self.store
    }

    /// Creates a new RoutingServiceImpl with the given route store.
    pub fn new(store: RouteStore) -> (s: Self)
        ensures
            s.store_view() == store,
    {
        RoutingServiceImpl { store }
    }

    /// The store this service manages, to route requests with.
    pub fn store(&self) -> (s: &RouteStore)
        ensures
            *s == self.store_view(),
    {
        &self.store
    }

    /// Hands the store back, with every sync applied to it.
    pub fn into_store(self) -> (s: RouteStore)
        ensures
            s == self.store_view(),
    {
        self.store
    }

    /// Replaces all routes of the store with those of the request and
    /// applies its version; reports success, the version and the number of
    /// routes sent (each count truncated to 32 bits).
    pub fn update_routes(&mut self, request: UpdateRoutesRequest) -> (r: UpdateRoutesResponse)
        ensures
            final(self).store_view().http_view() == http_table_of(request.http_routes@),
            final(self).store_view().grpc_view() == grpc_table_of(request.grpc_routes@),
            final(self).store_view().version_view() == request.version,
            r.success,
            r.error@ == Seq::<char>::empty(),
            r.applied_version == request.version,
            r.http_route_count == request.http_routes.len() as u32,
            r.grpc_route_count == request.grpc_routes.len() as u32,
    {
        let http_count = request.http_routes.len() as u32;
        let grpc_count = request.grpc_routes.len() as u32;
        let applied_version = self.store.update_routes(request.http_routes, request.grpc_routes, request.version);
        UpdateRoutesResponse {
            success: true,
            error: String::new(),
            applied_version,
            http_route_count: http_count,
            grpc_route_count: grpc_count,
        }
    }

    /// Returns all currently configured routes and the version.
    pub fn get_routes(&self, request: GetRoutesRequest) -> (r: GetRoutesResponse)
        ensures
            lists_http_table(r.http_routes@, self.store_view().http_view()),
            lists_grpc_table(r.grpc_routes@, self.store_view().grpc_view()),
            r.version == self.store_view().version_view(),
    {
        let http_routes = self.store.get_http_routes();
        let grpc_routes = self.store.get_grpc_routes();
        let version = self.store.version();
        GetRoutesResponse { http_routes, grpc_routes, version }
    }

    /// Reports the proxy healthy and ready, with the configuration version.
    pub fn health(&self, request: HealthRequest) -> (r: HealthResponse)
        ensures
            r.healthy,
            r.status@ == "ready"@,
            r.active_connections == 0,
            r.config_version == self.store_view().version_view(),
    {
        let version = self.store.version();
        HealthResponse {
            healthy: true,
            status: "ready".to_owned(),
            active_connections: 0,
            config_version: version,
        }
    }
}

} // verus!
