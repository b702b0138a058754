//! Storage of the routing table pushed by the controller.
//!
//! Routes are kept in concurrent maps keyed by route id; a full sync
//! replaces the whole table and records its version.

use dashmap::DashMap;
use vstd::prelude::*;

use crate::api::{GrpcRoute, HttpRoute};

verus! {

/// What a `DashMap<String, HttpRoute>` holds: route id to route.
pub uninterp spec fn http_route_entries(m: DashMap<String, HttpRoute>) -> Map<Seq<char>, HttpRoute>;

/// What a `DashMap<String, GrpcRoute>` holds: route id to route.
pub uninterp spec fn grpc_route_entries(m: DashMap<String, GrpcRoute>) -> Map<Seq<char>, GrpcRoute>;

/// The HTTP table with no routes.
pub open spec fn empty_http_table() -> Map<Seq<char>, HttpRoute> {
    Map::empty()
}

/// The gRPC table with no routes.
pub open spec fn empty_grpc_table() -> Map<Seq<char>, GrpcRoute> {
    Map::empty()
}

/// Calls `DashMap::new`: the new map is empty.
#[verifier::external_body]
fn http_map_new() -> (m: DashMap<String, HttpRoute>)
    ensures
        http_route_entries(m) == empty_http_table(),
{
    DashMap::new()
}

/// Calls `DashMap::insert`: `key` now maps to `value`, every other entry stays.
#[verifier::external_body]
fn http_map_insert(m: &mut DashMap<String, HttpRoute>, key: String, value: HttpRoute)
    ensures
        http_route_entries(*final(m)) == http_route_entries(*old(m)).insert(key@, value),
{
    m.insert(key, value);
}

/// Calls `DashMap::len`: the number of entries.
#[verifier::external_body]
fn http_map_len(m: &DashMap<String, HttpRoute>) -> (n: usize)
    ensures
        n == http_route_entries(*m).len(),
{
    m.len()
}

/// Walks the map with `DashMap::iter`, copying each entry: every entry comes
/// out once, in an order that the contract leaves open.
#[verifier::external_body]
fn http_map_entries(m: &DashMap<String, HttpRoute>) -> (v: Vec<(String, HttpRoute)>)
    ensures
        forall|i: int|
            0 <= i < v.len() ==> #[trigger] http_route_entries(*m).contains_key(v@[i].0@)
                && http_route_entries(*m)[v@[i].0@] == v@[i].1,
        forall|k: Seq<char>|
            #[trigger] http_route_entries(*m).contains_key(k) ==> exists|i: int|
                0 <= i < v.len() && v@[i].0@ == k,
        forall|i: int, j: int| 0 <= i < j < v.len() ==> v@[i].0@ != v@[j].0@,
{
    m.iter().map(|e| (e.key().clone(), e.value().clone())).collect()
}

/// Calls `DashMap::new`: the new map is empty.
#[verifier::external_body]
fn grpc_map_new() -> (m: DashMap<String, GrpcRoute>)
    ensures
        grpc_route_entries(m) == empty_grpc_table(),
{
    DashMap::new()
}

/// Calls `DashMap::insert`: `key` now maps to `value`, every other entry stays.
#[verifier::external_body]
fn grpc_map_insert(m: &mut DashMap<String, GrpcRoute>, key: String, value: GrpcRoute)
    ensures
        grpc_route_entries(*final(m)) == grpc_route_entries(*old(m)).insert(key@, value),
{
    m.insert(key, value);
}

/// Calls `DashMap::len`: the number of entries.
#[verifier::external_body]
fn grpc_map_len(m: &DashMap<String, GrpcRoute>) -> (n: usize)
    ensures
        n == grpc_route_entries(*m).len(),
{
    m.len()
}

/// Walks the map with `DashMap::iter`, copying each entry: every entry comes
/// out once, in an order that the contract leaves open.
#[verifier::external_body]
fn grpc_map_entries(m: &DashMap<String, GrpcRoute>) -> (v: Vec<(String, GrpcRoute)>)
    ensures
        forall|i: int|
            0 <= i < v.len() ==> #[trigger] grpc_route_entries(*m).contains_key(v@[i].0@)
                && grpc_route_entries(*m)[v@[i].0@] == v@[i].1,
        forall|k: Seq<char>|
            #[trigger] grpc_route_entries(*m).contains_key(k) ==> exists|i: int|
                0 <= i < v.len() && v@[i].0@ == k,
        forall|i: int, j: int| 0 <= i < j < v.len() ==> v@[i].0@ != v@[j].0@,
{
    m.iter().map(|e| (e.key().clone(), e.value().clone())).collect()
}

/// The table that results from inserting `routes` in order, keyed by id:
/// for each id, the last route that carries it.
pub open spec fn http_table_of(routes: Seq<HttpRoute>) -> Map<Seq<char>, HttpRoute>
    decreases routes.len(),
{
    if routes.len() == 0 {
        Map::empty()
    } else {
        http_table_of(routes.drop_last()).insert(routes.last().id@, routes.last())
    }
}

/// The table that results from inserting `routes` in order, keyed by id.
pub open spec fn grpc_table_of(routes: Seq<GrpcRoute>) -> Map<Seq<char>, GrpcRoute>
    decreases routes.len(),
{
    if routes.len() == 0 {
        Map::empty()
    } else {
        grpc_table_of(routes.drop_last()).insert(routes.last().id@, routes.last())
    }
}

/// Every entry of an HTTP table is filed under its route's id.
pub open spec fn http_keyed_by_id(t: Map<Seq<char>, HttpRoute>) -> bool {
    &&& t.dom().finite()
    &&& forall|k: Seq<char>| #[trigger] t.contains_key(k) ==> t[k].id@ == k
}

/// Every entry of a gRPC table is filed under its route's id.
pub open spec fn grpc_keyed_by_id(t: Map<Seq<char>, GrpcRoute>) -> bool {
    &&& t.dom().finite()
    &&& forall|k: Seq<char>| #[trigger] t.contains_key(k) ==> t[k].id@ == k
}

/// `routes` lists every route of `t` exactly once, in any order.
pub open spec fn lists_http_table(routes: Seq<HttpRoute>, t: Map<Seq<char>, HttpRoute>) -> bool {
    &&& routes.len() == t.len()
    &&& forall|i: int| 0 <= i < routes.len() ==> #[trigger] t.contains_key(routes[i].id@)
        && t[routes[i].id@] == routes[i]
    &&& forall|k: Seq<char>| #[trigger] t.contains_key(k) ==> exists|i: int|
        0 <= i < routes.len() && routes[i].id@ == k
    &&& forall|i: int, j: int| 0 <= i < j < routes.len() ==> routes[i].id@ != routes[j].id@
}

/// `routes` lists every route of `t` exactly once, in any order.
pub open spec fn lists_grpc_table(routes: Seq<GrpcRoute>, t: Map<Seq<char>, GrpcRoute>) -> bool {
    &&& routes.len() == t.len()
    &&& forall|i: int| 0 <= i < routes.len() ==> #[trigger] t.contains_key(routes[i].id@)
        && t[routes[i].id@] == routes[i]
    &&& forall|k: Seq<char>| #[trigger] t.contains_key(k) ==> exists|i: int|
        0 <= i < routes.len() && routes[i].id@ == k
    &&& forall|i: int, j: int| 0 <= i < j < routes.len() ==> routes[i].id@ != routes[j].id@
}

proof fn lemma_http_table_keyed(routes: Seq<HttpRoute>)
    ensures
        http_keyed_by_id(http_table_of(routes)),
    decreases routes.len(),
{
    if routes.len() > 0 {
        lemma_http_table_keyed(routes.drop_last());
    }
}

proof fn lemma_grpc_table_keyed(routes: Seq<GrpcRoute>)
    ensures
        grpc_keyed_by_id(grpc_table_of(routes)),
    decreases routes.len(),
{
    if routes.len() > 0 {
        lemma_grpc_table_keyed(routes.drop_last());
    }
}

/// Number of distinct keys of a finite table, given a listing of it.
proof fn lemma_listing_len<K, V>(keys: Seq<K>, t: Map<K, V>)
    requires
        t.dom().finite(),
        forall|i: int| 0 <= i < keys.len() ==> #[trigger] t.contains_key(keys[i]),
        forall|k: K| #[trigger] t.contains_key(k) ==> keys.contains(k),
        keys.no_duplicates(),
    ensures
        keys.len() == t.len(),
{
    keys.unique_seq_to_set();
    assert(keys.to_set() =~= t.dom());
}

/// The routes of `routes` carry pairwise distinct ids.
pub open spec fn distinct_http_ids(routes: Seq<HttpRoute>) -> bool {
    forall|i: int, j: int| 0 <= i < j < routes.len() ==> routes[i].id@ != routes[j].id@
}

/// The routes of `routes` carry pairwise distinct ids.
pub open spec fn distinct_grpc_ids(routes: Seq<GrpcRoute>) -> bool {
    forall|i: int, j: int| 0 <= i < j < routes.len() ==> routes[i].id@ != routes[j].id@
}

proof fn lemma_http_table_distinct(routes: Seq<HttpRoute>)
    requires
        distinct_http_ids(routes),
    ensures
        http_table_of(routes).dom().finite(),
        http_table_of(routes).len() == routes.len(),
        forall|i: int| 0 <= i < routes.len() ==> #[trigger] http_table_of(routes).contains_key(routes[i].id@)
            && http_table_of(routes)[routes[i].id@] == routes[i],
        forall|k: Seq<char>| #[trigger] http_table_of(routes).contains_key(k) ==> exists|i: int|
            0 <= i < routes.len() && routes[i].id@ == k,
    decreases routes.len(),
{
    if routes.len() > 0 {
        let init = routes.drop_last();
        assert(distinct_http_ids(init));
        lemma_http_table_distinct(init);
        let t = http_table_of(init);
        let last = routes.last();
        if t.contains_key(last.id@) {
            let i = choose|i: int| 0 <= i < init.len() && init[i].id@ == last.id@;
            assert(routes[i].id@ != routes[routes.len() - 1].id@);
        }
        assert forall|i: int| 0 <= i < routes.len() implies #[trigger] http_table_of(routes).contains_key(
            routes[i].id@,
        ) && http_table_of(routes)[routes[i].id@] == routes[i] by {
            if i < routes.len() - 1 {
                assert(init[i] == routes[i]);
                assert(t.contains_key(init[i].id@));
            }
        }
        assert forall|k: Seq<char>| #[trigger] http_table_of(routes).contains_key(k) implies exists|i: int|
            0 <= i < routes.len() && routes[i].id@ == k by {
            if k != last.id@ {
                assert(t.contains_key(k));
                let i = choose|i: int| 0 <= i < init.len() && init[i].id@ == k;
                assert(routes[i] == init[i]);
            } else {
                assert(routes[routes.len() - 1].id@ == k);
            }
        }
    }
}

proof fn lemma_grpc_table_distinct(routes: Seq<GrpcRoute>)
    requires
        distinct_grpc_ids(routes),
    ensures
        grpc_table_of(routes).dom().finite(),
        grpc_table_of(routes).len() == routes.len(),
        forall|i: int| 0 <= i < routes.len() ==> #[trigger] grpc_table_of(routes).contains_key(routes[i].id@)
            && grpc_table_of(routes)[routes[i].id@] == routes[i],
        forall|k: Seq<char>| #[trigger] grpc_table_of(routes).contains_key(k) ==> exists|i: int|
            0 <= i < routes.len() && routes[i].id@ == k,
    decreases routes.len(),
{
    if routes.len() > 0 {
        let init = routes.drop_last();
        assert(distinct_grpc_ids(init));
        lemma_grpc_table_distinct(init);
        let t = grpc_table_of(init);
        let last = routes.last();
        if t.contains_key(last.id@) {
            let i = choose|i: int| 0 <= i < init.len() && init[i].id@ == last.id@;
            assert(routes[i].id@ != routes[routes.len() - 1].id@);
        }
        assert forall|i: int| 0 <= i < routes.len() implies #[trigger] grpc_table_of(routes).contains_key(
            routes[i].id@,
        ) && grpc_table_of(routes)[routes[i].id@] == routes[i] by {
            if i < routes.len() - 1 {
                assert(init[i] == routes[i]);
                assert(t.contains_key(init[i].id@));
            }
        }
        assert forall|k: Seq<char>| #[trigger] grpc_table_of(routes).contains_key(k) implies exists|i: int|
            0 <= i < routes.len() && routes[i].id@ == k by {
            if k != last.id@ {
                assert(t.contains_key(k));
                let i = choose|i: int| 0 <= i < init.len() && init[i].id@ == k;
                assert(routes[i] == init[i]);
            } else {
                assert(routes[routes.len() - 1].id@ == k);
            }
        }
    }
}

/// Reading back a full sync: when the synced HTTP routes carry distinct
/// ids, a listing of the resulting table holds exactly those routes, each
/// once, in some order, and as many of them.
pub proof fn law_http_read_after_sync(routes: Seq<HttpRoute>, listed: Seq<HttpRoute>)
    requires
        distinct_http_ids(routes),
        lists_http_table(listed, http_table_of(routes)),
    ensures
        listed.len() == routes.len(),
        http_table_of(routes).len() == routes.len(),
        forall|i: int| 0 <= i < routes.len() ==> exists|j: int| 0 <= j < listed.len() && #[trigger] listed[j] == #[trigger] routes[i],
        forall|j: int| 0 <= j < listed.len() ==> exists|i: int| 0 <= i < routes.len() && #[trigger] routes[i] == #[trigger] listed[j],
{
    let t = http_table_of(routes);
    lemma_http_table_distinct(routes);
    assert forall|i: int| 0 <= i < routes.len() implies exists|j: int|
        0 <= j < listed.len() && #[trigger] listed[j] == #[trigger] routes[i] by {
        assert(t.contains_key(routes[i].id@));
        let j = choose|j: int| 0 <= j < listed.len() && listed[j].id@ == routes[i].id@;
        assert(t.contains_key(listed[j].id@));
    }
    assert forall|j: int| 0 <= j < listed.len() implies exists|i: int|
        0 <= i < routes.len() && #[trigger] routes[i] == #[trigger] listed[j] by {
        assert(t.contains_key(listed[j].id@));
        let i = choose|i: int| 0 <= i < routes.len() && routes[i].id@ == listed[j].id@;
        assert(t.contains_key(routes[i].id@));
    }
}

/// Reading back a full sync of gRPC routes with distinct ids: a listing of
/// the resulting table holds exactly those routes, each once.
pub proof fn law_grpc_read_after_sync(routes: Seq<GrpcRoute>, listed: Seq<GrpcRoute>)
    requires
        distinct_grpc_ids(routes),
        lists_grpc_table(listed, grpc_table_of(routes)),
    ensures
        listed.len() == routes.len(),
        grpc_table_of(routes).len() == routes.len(),
        forall|i: int| 0 <= i < routes.len() ==> exists|j: int| 0 <= j < listed.len() && #[trigger] listed[j] == #[trigger] routes[i],
        forall|j: int| 0 <= j < listed.len() ==> exists|i: int| 0 <= i < routes.len() && #[trigger] routes[i] == #[trigger] listed[j],
{
    let t = grpc_table_of(routes);
    lemma_grpc_table_distinct(routes);
    assert forall|i: int| 0 <= i < routes.len() implies exists|j: int|
        0 <= j < listed.len() && #[trigger] listed[j] == #[trigger] routes[i] by {
        assert(t.contains_key(routes[i].id@));
        let j = choose|j: int| 0 <= j < listed.len() && listed[j].id@ == routes[i].id@;
        assert(t.contains_key(listed[j].id@));
    }
    assert forall|j: int| 0 <= j < listed.len() implies exists|i: int|
        0 <= i < routes.len() && #[trigger] routes[i] == #[trigger] listed[j] by {
        assert(t.contains_key(listed[j].id@));
        let i = choose|i: int| 0 <= i < routes.len() && routes[i].id@ == listed[j].id@;
        assert(t.contains_key(routes[i].id@));
    }
}

/// The ids that the routes of `routes` carry.
pub open spec fn http_ids(routes: Seq<HttpRoute>) -> Set<Seq<char>> {
    Set::new(|k: Seq<char>| exists|i: int| 0 <= i < routes.len() && routes[i].id@ == k)
}

/// `routes[i]` is the last route of `routes` that carries its id.
pub open spec fn http_last_with_id(routes: Seq<HttpRoute>, i: int) -> bool {
    &&& 0 <= i < routes.len()
    &&& forall|j: int| i < j < routes.len() ==> routes[j].id@ != routes[i].id@
}

/// What a full sync of HTTP routes keeps, for any list of routes: the table
/// holds one route per id that the list carries and no other, that route
/// is the last one of the list with its id, and the table counts as many
/// routes as the list has distinct ids.
pub proof fn law_http_sync_keeps_last_of_each_id(routes: Seq<HttpRoute>)
    ensures
        http_table_of(routes).dom() == http_ids(routes),
        http_table_of(routes).len() == http_ids(routes).len(),
        forall|i: int| #[trigger] http_last_with_id(routes, i)
            ==> http_table_of(routes)[routes[i].id@] == routes[i],
        forall|k: Seq<char>| #[trigger] http_table_of(routes).contains_key(k)
            ==> exists|i: int| http_last_with_id(routes, i) && routes[i].id@ == k,
    decreases routes.len(),
{
    let t = http_table_of(routes);
    if routes.len() == 0 {
        assert(t.dom() =~= http_ids(routes));
    } else {
        let init = routes.drop_last();
        let n = routes.len() - 1;
        let last = routes[n];
        law_http_sync_keeps_last_of_each_id(init);
        let ti = http_table_of(init);
        assert forall|k: Seq<char>| #[trigger] http_ids(routes).contains(k) <==> t.dom().contains(k) by {
            if http_ids(routes).contains(k) {
                let i = choose|i: int| 0 <= i < routes.len() && routes[i].id@ == k;
                if i < n {
                    assert(init[i] == routes[i]);
                    assert(http_ids(init).contains(k));
                }
            }
            if t.dom().contains(k) && k != last.id@ {
                assert(ti.dom().contains(k));
                assert(http_ids(init).contains(k));
                let i = choose|i: int| 0 <= i < init.len() && init[i].id@ == k;
                assert(routes[i] == init[i]);
            }
        }
        assert(t.dom() =~= http_ids(routes));
        assert forall|i: int| #[trigger] http_last_with_id(routes, i)
            implies t[routes[i].id@] == routes[i] by {
            if i < n {
                assert(routes[n].id@ != routes[i].id@);
                assert(init[i] == routes[i]);
                assert forall|j: int| i < j < init.len() implies init[j].id@ != init[i].id@ by {
                    assert(init[j] == routes[j]);
                }
                assert(http_last_with_id(init, i));
            }
        }
        assert forall|k: Seq<char>| #[trigger] t.contains_key(k)
            implies exists|i: int| http_last_with_id(routes, i) && routes[i].id@ == k by {
            if k == last.id@ {
                assert(http_last_with_id(routes, n));
            } else {
                assert(ti.contains_key(k));
                let i = choose|i: int| http_last_with_id(init, i) && init[i].id@ == k;
                assert(init[i] == routes[i]);
                assert forall|j: int| i < j < routes.len() implies routes[j].id@ != routes[i].id@ by {
                    if j < n {
                        assert(init[j] == routes[j]);
                    }
                }
                assert(http_last_with_id(routes, i));
            }
        }
    }
}

/// The ids that the routes of `routes` carry.
pub open spec fn grpc_ids(routes: Seq<GrpcRoute>) -> Set<Seq<char>> {
    Set::new(|k: Seq<char>| exists|i: int| 0 <= i < routes.len() && routes[i].id@ == k)
}

/// `routes[i]` is the last route of `routes` that carries its id.
pub open spec fn grpc_last_with_id(routes: Seq<GrpcRoute>, i: int) -> bool {
    &&& 0 <= i < routes.len()
    &&& forall|j: int| i < j < routes.len() ==> routes[j].id@ != routes[i].id@
}

/// What a full sync of gRPC routes keeps, for any list of routes: the table
/// holds one route per id that the list carries and no other, that route
/// is the last one of the list with its id, and the table counts as many
/// routes as the list has distinct ids.
pub proof fn law_grpc_sync_keeps_last_of_each_id(routes: Seq<GrpcRoute>)
    ensures
        grpc_table_of(routes).dom() == grpc_ids(routes),
        grpc_table_of(routes).len() == grpc_ids(routes).len(),
        forall|i: int| #[trigger] grpc_last_with_id(routes, i)
            ==> grpc_table_of(routes)[routes[i].id@] == routes[i],
        forall|k: Seq<char>| #[trigger] grpc_table_of(routes).contains_key(k)
            ==> exists|i: int| grpc_last_with_id(routes, i) && routes[i].id@ == k,
    decreases routes.len(),
{
    let t = grpc_table_of(routes);
    if routes.len() == 0 {
        assert(t.dom() =~= grpc_ids(routes));
    } else {
        let init = routes.drop_last();
        let n = routes.len() - 1;
        let last = routes[n];
        law_grpc_sync_keeps_last_of_each_id(init);
        let ti = grpc_table_of(init);
        assert forall|k: Seq<char>| #[trigger] grpc_ids(routes).contains(k) <==> t.dom().contains(k) by {
            if grpc_ids(routes).contains(k) {
                let i = choose|i: int| 0 <= i < routes.len() && routes[i].id@ == k;
                if i < n {
                    assert(init[i] == routes[i]);
                    assert(grpc_ids(init).contains(k));
                }
            }
            if t.dom().contains(k) && k != last.id@ {
                assert(ti.dom().contains(k));
                assert(grpc_ids(init).contains(k));
                let i = choose|i: int| 0 <= i < init.len() && init[i].id@ == k;
                assert(routes[i] == init[i]);
            }
        }
        assert(t.dom() =~= grpc_ids(routes));
        assert forall|i: int| #[trigger] grpc_last_with_id(routes, i)
            implies t[routes[i].id@] == routes[i] by {
            if i < n {
                assert(routes[n].id@ != routes[i].id@);
                assert(init[i] == routes[i]);
                assert forall|j: int| i < j < init.len() implies init[j].id@ != init[i].id@ by {
                    assert(init[j] == routes[j]);
                }
                assert(grpc_last_with_id(init, i));
            }
        }
        assert forall|k: Seq<char>| #[trigger] t.contains_key(k)
            implies exists|i: int| grpc_last_with_id(routes, i) && routes[i].id@ == k by {
            if k == last.id@ {
                assert(grpc_last_with_id(routes, n));
            } else {
                assert(ti.contains_key(k));
                let i = choose|i: int| grpc_last_with_id(init, i) && init[i].id@ == k;
                assert(init[i] == routes[i]);
                assert forall|j: int| i < j < routes.len() implies routes[j].id@ != routes[i].id@ by {
                    if j < n {
                        assert(init[j] == routes[j]);
                    }
                }
                assert(grpc_last_with_id(routes, i));
            }
        }
    }
}

/// Storage for the HTTP and gRPC routes and the configuration version.
pub struct RouteStore {
    http_routes: DashMap<String, HttpRoute>,
    grpc_routes: DashMap<String, GrpcRoute>,
    version: u64,
}

impl RouteStore {
    /// The stored HTTP routes, by id.
    pub closed spec fn http_view(&self) -> Map<Seq<char>, HttpRoute> {
        http_route_entries(self.http_routes)
    }

    /// The stored gRPC routes, by id.
    pub closed spec fn grpc_view(&self) -> Map<Seq<char>, GrpcRoute> {
        grpc_route_entries(self.grpc_routes)
    }

    /// The configuration version last applied.
    pub closed spec fn version_view(&self) -> u64 {
        self.version
    }

    /// Both tables are finite and file each route under its own id.
    #[verifier::type_invariant]
    spec fn keyed_by_id(&self) -> bool {
        http_keyed_by_id(self.http_view()) && grpc_keyed_by_id(self.grpc_view())
    }

    /// Creates a new empty route store.
    pub fn new() -> (s: Self)
        ensures
            s.http_view() == empty_http_table(),
            s.grpc_view() == empty_grpc_table(),
            s.version_view() == 0,
    {
        RouteStore { http_routes: http_map_new(), grpc_routes: grpc_map_new(), version: 0 }
    }

    /// Replaces all routes (full sync) and records `version`, which it returns.
    ///
    /// Nothing of the previous table survives; when several routes share an
    /// id, the last one is kept.
    pub fn update_routes(
        &mut self,
        http_routes: Vec<HttpRoute>,
        grpc_routes: Vec<GrpcRoute>,
        version: u64,
    ) -> (applied: u64)
        ensures
            final(self).http_view() == http_table_of(http_routes@),
            final(self).grpc_view() == grpc_table_of(grpc_routes@),
            final(self).version_view() == version,
            applied == version,
    {
        let ghost all_http = http_routes@;
        let mut http = http_map_new();
        for route in it: http_routes
            invariant
                it.seq() == all_http,
                http_route_entries(http) == http_table_of(all_http.take(it.index() as int)),
        {
            proof {
                assert(all_http.take(it.index() as int + 1).drop_last() =~= all_http.take(
                    it.index() as int,
                ));
            }
            let key = route.id.clone();
            http_map_insert(&mut http, key, route);
        }

        let ghost all_grpc = grpc_routes@;
        let mut grpc = grpc_map_new();
        for route in it: grpc_routes
            invariant
                it.seq() == all_grpc,
                grpc_route_entries(grpc) == grpc_table_of(all_grpc.take(it.index() as int)),
        {
            proof {
                assert(all_grpc.take(it.index() as int + 1).drop_last() =~= all_grpc.take(
                    it.index() as int,
                ));
            }
            let key = route.id.clone();
            grpc_map_insert(&mut grpc, key, route);
        }
        proof {
            assert(all_http.take(all_http.len() as int) =~= all_http);
            assert(all_grpc.take(all_grpc.len() as int) =~= all_grpc);
            lemma_http_table_keyed(all_http);
            lemma_grpc_table_keyed(all_grpc);
            use_type_invariant(&*self);
        }

        // The new tables replace the old ones as a whole.
        self.http_routes = http;
        self.grpc_routes = grpc;
        self.version = version;
        version
    }

    /// Returns all HTTP routes, each once, in an order that is left open.
    pub fn get_http_routes(&self) -> (routes: Vec<HttpRoute>)
        ensures
            lists_http_table(routes@, self.http_view()),
    {
        proof {
            use_type_invariant(self);
        }
        let entries = http_map_entries(&self.http_routes);
        let ghost es = entries@;
        let ghost t = self.http_view();
        let mut routes: Vec<HttpRoute> = Vec::new();
        for entry in it: entries
            invariant
                it.seq() == es,
                routes@.len() == it.index(),
                forall|j: int| 0 <= j < it.index() ==> #[trigger] routes@[j] == es[j].1,
        {
            routes.push(entry.1);
        }
        proof {
            assert forall|i: int| 0 <= i < routes@.len() implies #[trigger] t.contains_key(
                routes@[i].id@,
            ) && t[routes@[i].id@] == routes@[i] by {
                assert(t.contains_key(es[i].0@));
            }
            assert forall|k: Seq<char>| #[trigger] t.contains_key(k) implies exists|i: int|
                0 <= i < routes@.len() && routes@[i].id@ == k by {
                let i = choose|i: int| 0 <= i < es.len() && es[i].0@ == k;
                assert(routes@[i].id@ == k);
            }
            assert forall|i: int, j: int| 0 <= i < j < routes@.len() implies routes@[i].id@
                != routes@[j].id@ by {
                assert(t.contains_key(es[i].0@));
                assert(t.contains_key(es[j].0@));
            }
            let keys = routes@.map_values(|r: HttpRoute| r.id@);
            assert forall|k: Seq<char>| #[trigger] t.contains_key(k) implies keys.contains(k) by {
                let i = choose|i: int| 0 <= i < routes@.len() && routes@[i].id@ == k;
                assert(keys[i] == k);
            }
            assert forall|i: int| 0 <= i < keys.len() implies #[trigger] t.contains_key(keys[i]) by {
                assert(t.contains_key(routes@[i].id@));
            }
            assert(keys.no_duplicates());
            lemma_listing_len(keys, t);
        }
        routes
    }

    /// Returns all gRPC routes, each once, in an order that is left open.
    pub fn get_grpc_routes(&self) -> (routes: Vec<GrpcRoute>)
        ensures
            lists_grpc_table(routes@, self.grpc_view()),
    {
        proof {
            use_type_invariant(self);
        }
        let entries = grpc_map_entries(&self.grpc_routes);
        let ghost es = entries@;
        let ghost t = self.grpc_view();
        let mut routes: Vec<GrpcRoute> = Vec::new();
        for entry in it: entries
            invariant
                it.seq() == es,
                routes@.len() == it.index(),
                forall|j: int| 0 <= j < it.index() ==> #[trigger] routes@[j] == es[j].1,
        {
            routes.push(entry.1);
        }
        proof {
            assert forall|i: int| 0 <= i < routes@.len() implies #[trigger] t.contains_key(
                routes@[i].id@,
            ) && t[routes@[i].id@] == routes@[i] by {
                assert(t.contains_key(es[i].0@));
            }
            assert forall|k: Seq<char>| #[trigger] t.contains_key(k) implies exists|i: int|
                0 <= i < routes@.len() && routes@[i].id@ == k by {
                let i = choose|i: int| 0 <= i < es.len() && es[i].0@ == k;
                assert(routes@[i].id@ == k);
            }
            assert forall|i: int, j: int| 0 <= i < j < routes@.len() implies routes@[i].id@
                != routes@[j].id@ by {
                assert(t.contains_key(es[i].0@));
                assert(t.contains_key(es[j].0@));
            }
            let keys = routes@.map_values(|r: GrpcRoute| r.id@);
            assert forall|k: Seq<char>| #[trigger] t.contains_key(k) implies keys.contains(k) by {
                let i = choose|i: int| 0 <= i < routes@.len() && routes@[i].id@ == k;
                assert(keys[i] == k);
            }
            assert forall|i: int| 0 <= i < keys.len() implies #[trigger] t.contains_key(keys[i]) by {
                assert(t.contains_key(routes@[i].id@));
            }
            assert(keys.no_duplicates());
            lemma_listing_len(keys, t);
        }
        routes
    }

    /// Returns the current configuration version.
    pub fn version(&self) -> (v: u64)
        ensures
            v == self.version_view(),
    {
        self.version
    }

    /// Returns the number of (HTTP routes, gRPC routes), each truncated to 32 bits.
    pub fn route_count(&self) -> (counts: (u32, u32))
        ensures
            counts.0 == self.http_view().len() as u32,
            counts.1 == self.grpc_view().len() as u32,
    {
        (http_map_len(&self.http_routes) as u32, grpc_map_len(&self.grpc_routes) as u32)
    }
} // impl RouteStore

impl Default for RouteStore {
    /// An empty route store.
    fn default() -> (s: Self)
        ensures
            s.http_view() == empty_http_table(),
            s.grpc_view() == empty_grpc_table(),
            s.version_view() == 0,
    {
        Self::new()
    }
}

} // verus!
