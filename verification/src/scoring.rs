//! Scores of hostname and path patterns and the best match of a request.
//!
//! A request (host, path) is matched against HTTP routes following the
//! Gateway API priorities:
//! - hostname: exact beats wildcard beats an empty hostname list (match all);
//! - path: exact beats prefix (a longer prefix beats a shorter one) beats
//!   regex (treated as a prefix).
//! The hostname score ranks first, the path score second.

use vstd::prelude::*;

use crate::api::{path_match_type_of, HttpRoute, HttpRouteMatch, HttpRouteRule, PathMatchType};
use crate::text::{
    before_first, byte_len, has_prefix, has_suffix, lemma_byte_len_at_least_len,
    lemma_byte_len_concat, lemma_byte_len_prefix, lemma_first_index_after, unicode_lowercase,
};
use crate::weights::total_weight;

verus! {

// ---------------------------------------------------------------------
// Specification of the scores
// ---------------------------------------------------------------------

/// The host as routing sees it: the part before the first `:` (the port
/// is cut off), lowercased.
pub open spec fn normalized_host(host: Seq<char>) -> Seq<char> {
    unicode_lowercase(before_first(host, ':'))
}

/// `"*."`, the start of a wildcard hostname pattern.
pub open spec fn wildcard_mark() -> Seq<char> {
    seq!['*', '.']
}

/// Whether a lowercased hostname pattern matches a normalized host.
/// `*.example.com` matches exactly one extra label: `foo.example.com`, but
/// not `example.com` nor `foo.bar.example.com`; any other pattern matches
/// only itself.
pub open spec fn lowered_hostname_matches(p: Seq<char>, h: Seq<char>) -> bool {
    if has_prefix(p, wildcard_mark()) {
        let suffix = p.skip(1);
        &&& has_suffix(h, suffix)
        &&& h.len() - suffix.len() > 0
        &&& !h.take(h.len() - suffix.len()).contains('.')
    } else {
        h == p
    }
}

/// Whether a hostname pattern matches a host (case-insensitively, port
/// ignored).
pub open spec fn hostname_matches_spec(pattern: Seq<char>, host: Seq<char>) -> bool {
    lowered_hostname_matches(unicode_lowercase(pattern), normalized_host(host))
}

/// Score of a hostname pattern for a host: `None` when it does not match,
/// its byte length for a wildcard, its byte length plus 1000 otherwise.
pub open spec fn hostname_score_spec(pattern: Seq<char>, host: Seq<char>) -> Option<int> {
    if !hostname_matches_spec(pattern, host) {
        None
    } else if has_prefix(pattern, wildcard_mark()) {
        Some(byte_len(pattern) as int)
    } else {
        Some(byte_len(pattern) + 1000int)
    }
}

/// The larger of two optional scores; `None` only when both are `None`.
pub open spec fn better_score(a: Option<int>, b: Option<int>) -> Option<int> {
    match (a, b) {
        (None, _) => b,
        (_, None) => a,
        (Some(x), Some(y)) => Some(if x >= y { x } else { y }),
    }
}

/// Largest score of the matching patterns among `hostnames`.
pub open spec fn max_hostname_score(hostnames: Seq<String>, host: Seq<char>) -> Option<int>
    decreases hostnames.len(),
{
    if hostnames.len() == 0 {
        None
    } else {
        better_score(
            max_hostname_score(hostnames.drop_last(), host),
            hostname_score_spec(hostnames.last()@, host),
        )
    }
}

/// Hostname score of a route: 0 when it lists no hostname (it matches
/// every host), else the best score of its patterns (`None`: no match).
pub open spec fn route_host_score(hostnames: Seq<String>, host: Seq<char>) -> Option<int> {
    if hostnames.len() == 0 {
        Some(0)
    } else {
        max_hostname_score(hostnames, host)
    }
}

/// Prefix match on path segment boundaries: `/api` matches `/api`,
/// `/api/` and `/api/users`, but not `/apikeys`.
pub open spec fn prefix_matches_spec(prefix: Seq<char>, path: Seq<char>) -> bool {
    ||| path == prefix
    ||| {
        &&& has_prefix(path, prefix)
        &&& (has_suffix(prefix, seq!['/']) || (prefix.len() < path.len()
            && path[prefix.len() as int] == '/'))
    }
}

/// Whether a path pattern of the given type matches a path.
pub open spec fn path_matches_spec(t: PathMatchType, pattern: Seq<char>, path: Seq<char>) -> bool {
    match t {
        PathMatchType::Exact => path == pattern,
        PathMatchType::Prefix => prefix_matches_spec(pattern, path),
        PathMatchType::Regex => prefix_matches_spec(pattern, path),
        PathMatchType::Unspecified => true,
    }
}

/// Score of a path pattern for a path: `None` when it does not match;
/// 10000 plus its byte length for exact, 1000 plus its byte length for
/// prefix, 500 for regex, 0 for unspecified.
pub open spec fn path_score_spec(t: PathMatchType, pattern: Seq<char>, path: Seq<char>) -> Option<int> {
    if !path_matches_spec(t, pattern, path) {
        None
    } else {
        match t {
            PathMatchType::Exact => Some(10000int + byte_len(pattern)),
            PathMatchType::Prefix => Some(1000int + byte_len(pattern)),
            PathMatchType::Regex => Some(500),
            PathMatchType::Unspecified => Some(0),
        }
    }
}

/// The match type of a wire code; an unknown code counts as unspecified.
pub open spec fn decoded_match_type(code: i32) -> PathMatchType {
    match path_match_type_of(code) {
        Some(t) => t,
        None => PathMatchType::Unspecified,
    }
}

/// Score of one route match for a path: 0 when it has no path pattern.
pub open spec fn match_score_spec(m: HttpRouteMatch, path: Seq<char>) -> Option<int> {
    match m.path {
        Some(pm) => path_score_spec(decoded_match_type(pm.match_type), pm.value@, path),
        None => Some(0),
    }
}

/// Largest score among `matches`.
pub open spec fn max_match_score(matches: Seq<HttpRouteMatch>, path: Seq<char>) -> Option<int>
    decreases matches.len(),
{
    if matches.len() == 0 {
        None
    } else {
        better_score(
            max_match_score(matches.drop_last(), path),
            match_score_spec(matches.last(), path),
        )
    }
}

/// Path score of a rule: 0 when it lists no match (it matches every
/// path), else the best score of its matches (`None`: no match).
pub open spec fn rule_path_score(matches: Seq<HttpRouteMatch>, path: Seq<char>) -> Option<int> {
    if matches.len() == 0 {
        Some(0)
    } else {
        max_match_score(matches, path)
    }
}

/// Rule `l` of `route` can serve the request: it has a backend and both
/// the route's hostnames and the rule's matches accept the request.
pub open spec fn rule_candidate(route: HttpRoute, l: int, host: Seq<char>, path: Seq<char>) -> bool {
    &&& 0 <= l < route.rules.len()
    &&& route.rules[l].backends.len() > 0
    &&& route_host_score(route.hostnames@, host) is Some
    &&& rule_path_score(route.rules[l].matches@, path) is Some
}

/// (hostname score, path score) of rule `l` of `route`.
pub open spec fn rule_score(route: HttpRoute, l: int, host: Seq<char>, path: Seq<char>) -> (int, int) {
    (
        route_host_score(route.hostnames@, host)->0,
        rule_path_score(route.rules[l].matches@, path)->0,
    )
}

/// Score `a` ranks strictly above score `b` (lexicographic order).
pub open spec fn outranks(a: (int, int), b: (int, int)) -> bool {
    a.0 > b.0 || (a.0 == b.0 && a.1 > b.1)
}

/// Result of a score computation, as a mathematical option.
pub open spec fn score_view(s: Option<usize>) -> Option<int> {
    match s {
        Some(v) => Some(v as int),
        None => None,
    }
}

/// Byte lengths of a route's patterns leave room for its scores: a
/// hostname pattern is at most `usize::MAX - 1000` bytes long, a path
/// pattern at most `usize::MAX - 10000` (which no string in memory comes
/// near).
pub open spec fn route_fits(route: HttpRoute) -> bool {
    &&& forall|h: int| 0 <= h < route.hostnames.len()
        ==> byte_len(#[trigger] route.hostnames[h]@) + 1000 <= usize::MAX
    &&& forall|l: int| 0 <= l < route.rules.len() ==> rule_fits(#[trigger] route.rules[l])
}

/// See `route_fits`.
pub open spec fn rule_fits(rule: HttpRouteRule) -> bool {
    forall|m: int| 0 <= m < rule.matches.len() ==> match_fits(#[trigger] rule.matches[m])
}

/// The effective weights of a rule's backends sum to at most `u32::MAX`,
/// so that a backend can be drawn from it.
pub open spec fn weights_fit(rule: HttpRouteRule) -> bool {
    total_weight(rule.backends@) <= u32::MAX
}

/// Every rule of the route passes `weights_fit`.
pub open spec fn route_weights_fit(route: HttpRoute) -> bool {
    forall|l: int| 0 <= l < route.rules.len() ==> weights_fit(#[trigger] route.rules[l])
}

/// See `route_fits`.
pub open spec fn match_fits(m: HttpRouteMatch) -> bool {
    match m.path {
        Some(pm) => byte_len(pm.value@) + 10000 <= usize::MAX,
        None => true,
    }
}

// ---------------------------------------------------------------------
// Best match over a sequence of routes and over a route table
// ---------------------------------------------------------------------

/// Rule `l` of route `k` of `routes` can serve the request.
pub open spec fn is_candidate(routes: Seq<HttpRoute>, k: int, l: int, host: Seq<char>, path: Seq<char>) -> bool {
    0 <= k < routes.len() && rule_candidate(routes[k], l, host, path)
}

/// Rule `l` of route `k` comes before rule `j` of route `i` in scanning order.
pub open spec fn scanned_before(k: int, l: int, i: int, j: int) -> bool {
    k < i || (k == i && l < j)
}

/// Among the candidates scanned before rule `j` of route `i`, rule `bl` of
/// route `bk` has the highest score and comes first among those that have it.
pub open spec fn first_best_before(
    routes: Seq<HttpRoute>,
    bk: int,
    bl: int,
    i: int,
    j: int,
    host: Seq<char>,
    path: Seq<char>,
) -> bool {
    &&& is_candidate(routes, bk, bl, host, path)
    &&& scanned_before(bk, bl, i, j)
    &&& forall|k: int, l: int|
        #![trigger is_candidate(routes, k, l, host, path)]
        is_candidate(routes, k, l, host, path) && scanned_before(k, l, i, j) ==> !outranks(
            rule_score(routes[k], l, host, path),
            rule_score(routes[bk], bl, host, path),
        )
    &&& forall|k: int, l: int|
        #![trigger is_candidate(routes, k, l, host, path)]
        is_candidate(routes, k, l, host, path) && scanned_before(k, l, bk, bl) ==> outranks(
            rule_score(routes[bk], bl, host, path),
            rule_score(routes[k], l, host, path),
        )
}

/// Rule `l` of route `k` is a candidate that ranks above every candidate
/// scanned before it: scanning `routes` in order, the router draws a
/// backend from it.
pub open spec fn leads_scan(routes: Seq<HttpRoute>, k: int, l: int, host: Seq<char>, path: Seq<char>) -> bool {
    &&& is_candidate(routes, k, l, host, path)
    &&& forall|k2: int, l2: int|
        #![trigger is_candidate(routes, k2, l2, host, path)]
        is_candidate(routes, k2, l2, host, path) && scanned_before(k2, l2, k, l) ==> outranks(
            rule_score(routes[k], l, host, path),
            rule_score(routes[k2], l2, host, path),
        )
}

/// Rule `bl` of route `bk` is, of all candidates in `routes`, the first one
/// with the highest score.
pub open spec fn is_first_best(routes: Seq<HttpRoute>, bk: int, bl: int, host: Seq<char>, path: Seq<char>) -> bool {
    first_best_before(routes, bk, bl, routes.len() as int, 0, host, path)
}

/// Rule `l` of the route filed under `id` can serve the request.
pub open spec fn table_candidate(
    t: Map<Seq<char>, HttpRoute>,
    id: Seq<char>,
    l: int,
    host: Seq<char>,
    path: Seq<char>,
) -> bool {
    t.contains_key(id) && rule_candidate(t[id], l, host, path)
}

/// Rule `l` of the route filed under `id` can serve the request, no
/// candidate of the table has a higher score, and every earlier candidate
/// rule of the same route has a lower one (the first best rule of its route
/// wins).
pub open spec fn table_best(
    t: Map<Seq<char>, HttpRoute>,
    id: Seq<char>,
    l: int,
    host: Seq<char>,
    path: Seq<char>,
) -> bool {
    &&& table_candidate(t, id, l, host, path)
    &&& forall|id2: Seq<char>, l2: int|
        #![trigger table_candidate(t, id2, l2, host, path)]
        table_candidate(t, id2, l2, host, path) ==> !outranks(
            rule_score(t[id2], l2, host, path),
            rule_score(t[id], l, host, path),
        )
    &&& forall|l2: int|
        #![trigger table_candidate(t, id, l2, host, path)]
        table_candidate(t, id, l2, host, path) && l2 < l ==> outranks(
            rule_score(t[id], l, host, path),
            rule_score(t[id], l2, host, path),
        )
}

/// Rule `l` of the route filed under `id` is a candidate that ranks above
/// every earlier candidate rule of its route: for some order of the
/// table's routes, scanning draws a backend from it.
pub open spec fn table_may_lead(
    t: Map<Seq<char>, HttpRoute>,
    id: Seq<char>,
    l: int,
    host: Seq<char>,
    path: Seq<char>,
) -> bool {
    &&& table_candidate(t, id, l, host, path)
    &&& forall|l2: int|
        #![trigger table_candidate(t, id, l2, host, path)]
        table_candidate(t, id, l2, host, path) && l2 < l ==> outranks(
            rule_score(t[id], l, host, path),
            rule_score(t[id], l2, host, path),
        )
}

/// Every rule from which routing may draw a backend for the request passes
/// `weights_fit`.
pub open spec fn table_weights_fit(t: Map<Seq<char>, HttpRoute>, host: Seq<char>, path: Seq<char>) -> bool {
    forall|id: Seq<char>, l: int| #[trigger] table_may_lead(t, id, l, host, path)
        ==> weights_fit(t[id].rules@[l])
}

/// Every route of the table fits (see `route_fits`).
pub open spec fn table_fits(t: Map<Seq<char>, HttpRoute>) -> bool {
    forall|id: Seq<char>| #[trigger] t.contains_key(id) ==> route_fits(t[id])
}

// ---------------------------------------------------------------------
// Laws of the scores
// ---------------------------------------------------------------------

/// An exact hostname pattern ranks above a wildcard pattern that matches
/// the same host, provided lowercasing does not change the byte length of
/// either pattern nor make the exact one start with `*.` (as for ASCII
/// patterns).
pub proof fn law_exact_hostname_outranks_wildcard(exact: Seq<char>, wildcard: Seq<char>, host: Seq<char>)
    requires
        !has_prefix(exact, wildcard_mark()),
        !has_prefix(unicode_lowercase(exact), wildcard_mark()),
        has_prefix(wildcard, wildcard_mark()),
        byte_len(unicode_lowercase(exact)) == byte_len(exact),
        byte_len(unicode_lowercase(wildcard)) == byte_len(wildcard),
        hostname_matches_spec(exact, host),
        hostname_matches_spec(wildcard, host),
    ensures
        hostname_score_spec(exact, host)->0 > hostname_score_spec(wildcard, host)->0,
{
    let h = normalized_host(host);
    let pw = unicode_lowercase(wildcard);
    assert(h == unicode_lowercase(exact));
    if has_prefix(pw, wildcard_mark()) {
        let suffix = pw.skip(1);
        assert(pw.take(2)[0] == '*');
        assert(pw.take(1) =~= seq!['*']);
        assert(pw =~= pw.take(1) + suffix);
        lemma_byte_len_concat(pw.take(1), suffix);
        assert(byte_len(seq!['*']) == 1) by {
            assert(seq!['*'].drop_first() =~= Seq::<char>::empty());
        }
        let k = h.len() - suffix.len();
        lemma_byte_len_prefix(h, k);
        assert(h.skip(k) == suffix);
        lemma_byte_len_at_least_len(h.take(k));
    } else {
        assert(h == pw);
    }
}

/// Rank of a path match type: exact 3, prefix 2, regex 1, unspecified 0.
pub open spec fn match_type_rank(t: PathMatchType) -> int {
    match t {
        PathMatchType::Exact => 3,
        PathMatchType::Prefix => 2,
        PathMatchType::Regex => 1,
        PathMatchType::Unspecified => 0,
    }
}

/// Path priority: of two patterns that match the same path, one of a
/// higher-ranked type (exact, then prefix, then regex, then unspecified)
/// scores higher, and of two prefix patterns the longer scores higher.
pub proof fn law_path_priority(t1: PathMatchType, p1: Seq<char>, t2: PathMatchType, p2: Seq<char>, path: Seq<char>)
    requires
        path_matches_spec(t1, p1, path),
        path_matches_spec(t2, p2, path),
        match_type_rank(t1) > match_type_rank(t2) || (t1 == PathMatchType::Prefix
            && t2 == PathMatchType::Prefix && byte_len(p1) > byte_len(p2)),
    ensures
        path_score_spec(t1, p1, path)->0 > path_score_spec(t2, p2, path)->0,
{
    if t1 == PathMatchType::Exact && t2 == PathMatchType::Prefix {
        if p2 != path {
            lemma_byte_len_prefix(path, p2.len() as int);
        }
    }
}

/// A route that lists hostnames and matches the host ranks above a route
/// that lists none (which matches every host with score 0).
pub proof fn law_listed_hostnames_outrank_match_all(hostnames: Seq<String>, host: Seq<char>)
    requires
        hostnames.len() > 0,
        route_host_score(hostnames, host) is Some,
    ensures
        route_host_score(hostnames, host)->0 > route_host_score(Seq::<String>::empty(), host)->0,
{
    lemma_max_hostname_score_positive(hostnames, host);
}

proof fn lemma_max_hostname_score_positive(hostnames: Seq<String>, host: Seq<char>)
    ensures
        max_hostname_score(hostnames, host) matches Some(x) ==> x > 0,
    decreases hostnames.len(),
{
    if hostnames.len() > 0 {
        lemma_max_hostname_score_positive(hostnames.drop_last(), host);
        let p = hostnames.last()@;
        if has_prefix(p, wildcard_mark()) {
            lemma_byte_len_at_least_len(p);
        }
    }
}

/// Hostname matching ignores a port: `host:port` matches exactly the
/// patterns that `host` matches.
pub proof fn law_port_ignored(pattern: Seq<char>, host: Seq<char>, port: Seq<char>)
    requires
        !host.contains(':'),
    ensures
        hostname_matches_spec(pattern, host + seq![':'] + port) == hostname_matches_spec(pattern, host),
{
    lemma_first_index_after(host, ':', port);
    assert(before_first(host, ':') == host);
}

/// Hostname matching depends on the pattern and the host only through
/// their lowercase forms: it is case-insensitive.
pub proof fn law_hostname_case_insensitive(p1: Seq<char>, h1: Seq<char>, p2: Seq<char>, h2: Seq<char>)
    requires
        unicode_lowercase(p1) == unicode_lowercase(p2),
        normalized_host(h1) == normalized_host(h2),
    ensures
        hostname_matches_spec(p1, h1) == hostname_matches_spec(p2, h2),
{
}


proof fn lemma_max_hostname_score_same_host(hostnames: Seq<String>, h1: Seq<char>, h2: Seq<char>)
    requires
        normalized_host(h1) == normalized_host(h2),
    ensures
        max_hostname_score(hostnames, h1) == max_hostname_score(hostnames, h2),
    decreases hostnames.len(),
{
    if hostnames.len() > 0 {
        lemma_max_hostname_score_same_host(hostnames.drop_last(), h1, h2);
    }
}

/// Route choice depends on the host only through its normalized form (the
/// part before the port, lowercased): two hosts with the same normalized
/// form have the same candidate rules in any table, and the same best ones.
pub proof fn law_routing_sees_normalized_host(
    t: Map<Seq<char>, HttpRoute>,
    h1: Seq<char>,
    h2: Seq<char>,
    path: Seq<char>,
)
    requires
        normalized_host(h1) == normalized_host(h2),
    ensures
        forall|id: Seq<char>, l: int|
            table_candidate(t, id, l, h1, path) == #[trigger] table_candidate(t, id, l, h2, path),
        forall|id: Seq<char>, l: int|
            table_best(t, id, l, h1, path) == #[trigger] table_best(t, id, l, h2, path),
{
    assert forall|hs: Seq<String>| #[trigger] route_host_score(hs, h1) == route_host_score(hs, h2) by {
        lemma_max_hostname_score_same_host(hs, h1, h2);
    }
    assert forall|id: Seq<char>, l: int|
        table_best(t, id, l, h1, path) == #[trigger] table_best(t, id, l, h2, path) by {
        if table_best(t, id, l, h1, path) {
            assert forall|id2: Seq<char>, l2: int|
                #[trigger] table_candidate(t, id2, l2, h2, path) implies !outranks(
                rule_score(t[id2], l2, h2, path),
                rule_score(t[id], l, h2, path),
            ) by {
                assert(table_candidate(t, id2, l2, h1, path));
            }
            assert forall|l2: int|
                #[trigger] table_candidate(t, id, l2, h2, path) && l2 < l implies outranks(
                rule_score(t[id], l, h2, path),
                rule_score(t[id], l2, h2, path),
            ) by {
                assert(table_candidate(t, id, l2, h1, path));
            }
        }
        if table_best(t, id, l, h2, path) {
            assert forall|id2: Seq<char>, l2: int|
                #[trigger] table_candidate(t, id2, l2, h1, path) implies !outranks(
                rule_score(t[id2], l2, h1, path),
                rule_score(t[id], l, h1, path),
            ) by {
                assert(table_candidate(t, id2, l2, h2, path));
            }
            assert forall|l2: int|
                #[trigger] table_candidate(t, id, l2, h1, path) && l2 < l implies outranks(
                rule_score(t[id], l, h1, path),
                rule_score(t[id], l2, h1, path),
            ) by {
                assert(table_candidate(t, id, l2, h2, path));
            }
        }
    }
}

/// Routing ignores a port: for a host without `:`, `host:port` has the
/// same candidate rules in any table as `host`, and the same best ones.
pub proof fn law_routing_ignores_port(
    t: Map<Seq<char>, HttpRoute>,
    host: Seq<char>,
    port: Seq<char>,
    path: Seq<char>,
)
    requires
        !host.contains(':'),
    ensures
        forall|id: Seq<char>, l: int|
            table_candidate(t, id, l, host + seq![':'] + port, path) == #[trigger] table_candidate(
                t,
                id,
                l,
                host,
                path,
            ),
        forall|id: Seq<char>, l: int|
            table_best(t, id, l, host + seq![':'] + port, path) == #[trigger] table_best(
                t,
                id,
                l,
                host,
                path,
            ),
{
    lemma_first_index_after(host, ':', port);
    assert(before_first(host, ':') == host);
    law_routing_sees_normalized_host(t, host + seq![':'] + port, host, path);
}

proof fn lemma_max_hostname_score_is_best(hostnames: Seq<String>, host: Seq<char>)
    ensures
        forall|i: int|
            0 <= i < hostnames.len() && #[trigger] hostname_score_spec(hostnames[i]@, host) is Some
                ==> max_hostname_score(hostnames, host) is Some && max_hostname_score(hostnames, host)->0
                >= hostname_score_spec(hostnames[i]@, host)->0,
        max_hostname_score(hostnames, host) is Some ==> exists|i: int|
            0 <= i < hostnames.len() && #[trigger] hostname_score_spec(hostnames[i]@, host)
                == max_hostname_score(hostnames, host),
    decreases hostnames.len(),
{
    if hostnames.len() > 0 {
        let init = hostnames.drop_last();
        let n = hostnames.len() - 1;
        lemma_max_hostname_score_is_best(init, host);
        assert forall|i: int|
            0 <= i < hostnames.len() && #[trigger] hostname_score_spec(hostnames[i]@, host) is Some
                implies max_hostname_score(hostnames, host) is Some && max_hostname_score(hostnames, host)->0
                >= hostname_score_spec(hostnames[i]@, host)->0 by {
            if i < n {
                assert(init[i] == hostnames[i]);
                assert(hostname_score_spec(init[i]@, host) is Some);
            }
        }
        if max_hostname_score(hostnames, host) is Some {
            if max_hostname_score(hostnames, host) == hostname_score_spec(hostnames[n]@, host) {
                assert(hostname_score_spec(hostnames[n]@, host) == max_hostname_score(hostnames, host));
            } else {
                let i = choose|i: int|
                    0 <= i < init.len() && #[trigger] hostname_score_spec(init[i]@, host)
                        == max_hostname_score(init, host);
                assert(init[i] == hostnames[i]);
                assert(hostname_score_spec(hostnames[i]@, host) == max_hostname_score(hostnames, host));
            }
        }
    }
}

/// A route's hostname score is the best score of its patterns that match
/// the host: no matching pattern scores higher, some matching pattern
/// scores exactly that, and with no matching pattern the route does not
/// match (a route that lists no hostname matches every host with score 0).
pub proof fn law_route_host_score_is_best_pattern(hostnames: Seq<String>, host: Seq<char>)
    ensures
        hostnames.len() == 0 ==> route_host_score(hostnames, host) == Some(0int),
        forall|i: int|
            0 <= i < hostnames.len() && #[trigger] hostname_score_spec(hostnames[i]@, host) is Some
                ==> route_host_score(hostnames, host) is Some && route_host_score(hostnames, host)->0
                >= hostname_score_spec(hostnames[i]@, host)->0,
        hostnames.len() > 0 && route_host_score(hostnames, host) is Some ==> exists|i: int|
            0 <= i < hostnames.len() && #[trigger] hostname_score_spec(hostnames[i]@, host)
                == route_host_score(hostnames, host),
        hostnames.len() > 0 && (forall|i: int|
            0 <= i < hostnames.len() ==> #[trigger] hostname_score_spec(hostnames[i]@, host) is None)
            ==> route_host_score(hostnames, host) is None,
{
    lemma_max_hostname_score_is_best(hostnames, host);
    if hostnames.len() > 0 && route_host_score(hostnames, host) is Some {
        let i = choose|i: int|
            0 <= i < hostnames.len() && #[trigger] hostname_score_spec(hostnames[i]@, host)
                == route_host_score(hostnames, host);
    }
}

proof fn lemma_max_match_score_is_best(matches: Seq<HttpRouteMatch>, path: Seq<char>)
    ensures
        forall|i: int|
            0 <= i < matches.len() && #[trigger] match_score_spec(matches[i], path) is Some
                ==> max_match_score(matches, path) is Some && max_match_score(matches, path)->0
                >= match_score_spec(matches[i], path)->0,
        max_match_score(matches, path) is Some ==> exists|i: int|
            0 <= i < matches.len() && #[trigger] match_score_spec(matches[i], path)
                == max_match_score(matches, path),
    decreases matches.len(),
{
    if matches.len() > 0 {
        let init = matches.drop_last();
        let n = matches.len() - 1;
        lemma_max_match_score_is_best(init, path);
        assert forall|i: int|
            0 <= i < matches.len() && #[trigger] match_score_spec(matches[i], path) is Some
                implies max_match_score(matches, path) is Some && max_match_score(matches, path)->0
                >= match_score_spec(matches[i], path)->0 by {
            if i < n {
                assert(init[i] == matches[i]);
                assert(match_score_spec(init[i], path) is Some);
            }
        }
        if max_match_score(matches, path) is Some {
            if max_match_score(matches, path) == match_score_spec(matches[n], path) {
                assert(match_score_spec(matches[n], path) == max_match_score(matches, path));
            } else {
                let i = choose|i: int|
                    0 <= i < init.len() && #[trigger] match_score_spec(init[i], path)
                        == max_match_score(init, path);
                assert(init[i] == matches[i]);
                assert(match_score_spec(matches[i], path) == max_match_score(matches, path));
            }
        }
    }
}

/// A rule's path score is the best score of its matches that accept the
/// path (the matches are alternatives): no accepting match scores higher,
/// some accepting match scores exactly that, and with no accepting match
/// the rule does not match (a rule that lists no match accepts every path
/// with score 0).
pub proof fn law_rule_path_score_is_best_match(matches: Seq<HttpRouteMatch>, path: Seq<char>)
    ensures
        matches.len() == 0 ==> rule_path_score(matches, path) == Some(0int),
        forall|i: int|
            0 <= i < matches.len() && #[trigger] match_score_spec(matches[i], path) is Some
                ==> rule_path_score(matches, path) is Some && rule_path_score(matches, path)->0
                >= match_score_spec(matches[i], path)->0,
        matches.len() > 0 && rule_path_score(matches, path) is Some ==> exists|i: int|
            0 <= i < matches.len() && #[trigger] match_score_spec(matches[i], path)
                == rule_path_score(matches, path),
        matches.len() > 0 && (forall|i: int|
            0 <= i < matches.len() ==> #[trigger] match_score_spec(matches[i], path) is None)
            ==> rule_path_score(matches, path) is None,
{
    lemma_max_match_score_is_best(matches, path);
    if matches.len() > 0 && rule_path_score(matches, path) is Some {
        let i = choose|i: int|
            0 <= i < matches.len() && #[trigger] match_score_spec(matches[i], path)
                == rule_path_score(matches, path);
    }
}

} // verus!
