//! Routing of incoming HTTP requests to backends.
//!
//! The rule with the highest (hostname score, path score) among the routes
//! of the store wins (see `scoring`); one of its backends is drawn at random,
//! each with probability proportional to its effective weight.

use rand::Rng;

use vstd::prelude::*;

use crate::api::{Backend, HttpRoute, HttpRouteMatch, PathMatchType};
use crate::scoring::{
    hostname_matches_spec, hostname_score_spec, is_candidate, lowered_hostname_matches, is_first_best, match_fits,
    match_score_spec, max_hostname_score, max_match_score, normalized_host, outranks,
    path_matches_spec, path_score_spec, prefix_matches_spec, route_fits, route_host_score,
    rule_candidate, rule_fits, rule_path_score, rule_score, scanned_before, score_view,
    table_best, table_candidate, table_fits, wildcard_mark, first_best_before, leads_scan,
    route_weights_fit, table_may_lead, table_weights_fit, weights_fit,
};
use crate::store::{lists_http_table, RouteStore};
use crate::text::{
    before_first, byte_len, byte_length, chars_of, contains_char, ends_with, find_first,
    has_suffix, same_chars, slice_chars, starts_with, to_lowercase,
};
use crate::weights::{
    lemma_weight_prefix_monotone, lemma_weighted_index_in_range, total_weight, weight_prefix,
    weighted_index, weighted_pick,
};

verus! {

/// Draws a number uniformly below `bound` with `rand::thread_rng().gen_range`.
/// Only the range of the result is stated: it depends on chance.
#[verifier::external_body]
fn random_below(bound: u32) -> (r: u32)
    requires
        bound > 0,
    ensures
        r < bound,
{
    rand::thread_rng().gen_range(0..bound)
}

/// A copy of `b`.
fn copy_backend(b: &Backend) -> (r: Backend)
    ensures
        r == *b,
{
    Backend { address: b.address.clone(), weight: b.weight, protocol: b.protocol }
}

/// Routes incoming HTTP requests to backends, reading the routes of a
/// route store that it borrows: each lookup answers from the table the
/// store holds at that moment.
pub struct Router<'a> {
    store: &'a RouteStore,
}

impl<'a> Router<'a> {
    /// The route store this router reads.
    pub closed spec fn store_view(&self) -> RouteStore {
        *self.store
    }

    /// Creates a new Router over the given route store.
    pub fn new(store: &'a RouteStore) -> (r: Self)
        ensures
            r.store_view() == *store,
    {
        Router { store }
    }

    /// Normalizes a hostname: strips the port (everything from the first
    /// `:`) and lowercases the rest.
    fn normalize_hostname(host: &str) -> (h: String)
        ensures
            h@ == normalized_host(host@),
    {
        let v = chars_of(host);
        let end = match find_first(&v, ':') {
            Some(i) => i,
            None => v.len(),
        };
        let head = host.substring_char(0, end);
        proof {
            assert(head@ =~= before_first(host@, ':'));
        }
        to_lowercase(head)
    }

    /// Checks whether a hostname pattern matches a host; supports exact
    /// patterns and wildcards (`*.example.com`).
    fn hostname_matches(pattern: &str, host: &str) -> (m: bool)
        ensures
            m == hostname_matches_spec(pattern@, host@),
    {
        let host_norm = Self::normalize_hostname(host);
        let pattern_lower = to_lowercase(pattern);
        Self::lowered_hostname_matches(pattern_lower.as_str(), host_norm.as_str())
    }

    /// Matches a lowercased hostname pattern against a normalized host
    /// (port cut off, lowercased): `*.example.com` matches exactly one extra
    /// label in front of `.example.com`, any other pattern only itself.
    pub fn lowered_hostname_matches(pattern: &str, host: &str) -> (m: bool)
        ensures
            m == lowered_hostname_matches(pattern@, host@),
    {
        let h = chars_of(host);
        let p = chars_of(pattern);
        let mark: Vec<char> = vec!['*', '.'];
        proof {
            assert(mark@ =~= wildcard_mark());
        }
        if starts_with(&p, &mark) {
            let suffix = slice_chars(&p, 1, p.len());
            proof {
                assert(suffix@ =~= p@.skip(1));
            }
            if !ends_with(&h, &suffix) {
                return false;
            }
            let prefix = slice_chars(&h, 0, h.len() - suffix.len());
            proof {
                assert(prefix@ =~= h@.take(h@.len() - suffix@.len()));
            }
            prefix.len() > 0 && !contains_char(&prefix, '.')
        } else {
            same_chars(&h, &p)
        }
    }

    /// Scores a hostname pattern for a host; exact patterns score above
    /// wildcards.
    fn hostname_score(pattern: &str, host: &str) -> (s: Option<usize>)
        requires
            byte_len(pattern@) + 1000 <= usize::MAX,
        ensures
            score_view(s) == hostname_score_spec(pattern@, host@),
    {
        if !Self::hostname_matches(pattern, host) {
            return None;
        }
        let p = chars_of(pattern);
        let mark: Vec<char> = vec!['*', '.'];
        proof {
            assert(mark@ =~= wildcard_mark());
        }
        if starts_with(&p, &mark) {
            Some(byte_length(pattern))
        } else {
            Some(byte_length(pattern) + 1000)
        }
    }

    /// Best hostname score of a route for a host: 0 for an empty list,
    /// `None` when no pattern matches.
    fn best_hostname_score(hostnames: &Vec<String>, host: &str) -> (s: Option<usize>)
        requires
            forall|h: int| 0 <= h < hostnames.len()
                ==> byte_len(#[trigger] hostnames[h]@) + 1000 <= usize::MAX,
        ensures
            score_view(s) == route_host_score(hostnames@, host@),
    {
        if hostnames.len() == 0 {
            return Some(0);
        }
        let mut best: Option<usize> = None;
        let mut i: usize = 0;
        while i < hostnames.len()
            invariant
                0 <= i <= hostnames.len(),
                forall|h: int| 0 <= h < hostnames.len()
                    ==> byte_len(#[trigger] hostnames[h]@) + 1000 <= usize::MAX,
                score_view(best) == max_hostname_score(hostnames@.take(i as int), host@),
            decreases hostnames.len() - i,
        {
            let score = Self::hostname_score(hostnames[i].as_str(), host);
            proof {
                assert(hostnames@.take(i as int + 1).drop_last() =~= hostnames@.take(i as int));
            }
            best = match (best, score) {
                (None, _) => score,
                (_, None) => best,
                (Some(x), Some(y)) => Some(if x >= y { x } else { y }),
            };
            i = i + 1;
        }
        proof {
            assert(hostnames@.take(hostnames@.len() as int) =~= hostnames@);
        }
        best
    }

    /// Prefix matching on segment boundaries: `/api` matches `/api`,
    /// `/api/` and `/api/users`, but not `/apikeys`.
    fn prefix_matches(prefix: &str, path: &str) -> (m: bool)
        ensures
            m == prefix_matches_spec(prefix@, path@),
    {
        let pv = chars_of(path);
        let xv = chars_of(prefix);
        if same_chars(&pv, &xv) {
            return true;
        }
        if starts_with(&pv, &xv) {
            if xv.len() > 0 && xv[xv.len() - 1] == '/' {
                proof {
                    assert(xv@.skip(xv@.len() - 1) =~= seq!['/']);
                }
                return true;
            }
            proof {
                if has_suffix(xv@, seq!['/']) {
                    assert(xv@.skip(xv@.len() - 1)[0] == '/');
                }
            }
            let n = xv.len();
            return n < pv.len() && pv[n] == '/';
        }
        false
    }

    /// Checks whether a path matches a pattern of the given type; a regex
    /// is matched as a prefix.
    fn path_matches(match_type: PathMatchType, pattern: &str, path: &str) -> (m: bool)
        ensures
            m == path_matches_spec(match_type, pattern@, path@),
    {
        match match_type {
            PathMatchType::Exact => {
                let a = chars_of(path);
                let b = chars_of(pattern);
                same_chars(&a, &b)
            },
            PathMatchType::Prefix => Self::prefix_matches(pattern, path),
            PathMatchType::Regex => Self::prefix_matches(pattern, path),
            PathMatchType::Unspecified => true,
        }
    }

    /// Scores a path pattern for a path: exact above longer prefix above
    /// shorter prefix above regex.
    fn path_score(match_type: PathMatchType, pattern: &str, path: &str) -> (s: Option<usize>)
        requires
            byte_len(pattern@) + 10000 <= usize::MAX,
        ensures
            score_view(s) == path_score_spec(match_type, pattern@, path@),
    {
        if !Self::path_matches(match_type, pattern, path) {
            return None;
        }
        match match_type {
            PathMatchType::Exact => Some(10000 + byte_length(pattern)),
            PathMatchType::Prefix => Some(1000 + byte_length(pattern)),
            PathMatchType::Regex => Some(500),
            PathMatchType::Unspecified => Some(0),
        }
    }

    /// Scores one route match for a path; no path pattern matches all paths.
    fn path_match_score(route_match: &HttpRouteMatch, path: &str) -> (s: Option<usize>)
        requires
            match_fits(*route_match),
        ensures
            score_view(s) == match_score_spec(*route_match, path@),
    {
        match &route_match.path {
            Some(pm) => {
                let match_type = match PathMatchType::try_from_i32(pm.match_type) {
                    Some(t) => t,
                    None => PathMatchType::Unspecified,
                };
                Self::path_score(match_type, pm.value.as_str(), path)
            },
            None => Some(0),
        }
    }

    /// Best path score of a rule's matches: 0 when there are none, `None`
    /// when no match accepts the path.
    fn best_path_score(matches: &Vec<HttpRouteMatch>, path: &str) -> (s: Option<usize>)
        requires
            forall|m: int| 0 <= m < matches.len() ==> match_fits(#[trigger] matches[m]),
        ensures
            score_view(s) == rule_path_score(matches@, path@),
    {
        if matches.len() == 0 {
            return Some(0);
        }
        let mut best: Option<usize> = None;
        let mut i: usize = 0;
        while i < matches.len()
            invariant
                0 <= i <= matches.len(),
                forall|m: int| 0 <= m < matches.len() ==> match_fits(#[trigger] matches[m]),
                score_view(best) == max_match_score(matches@.take(i as int), path@),
            decreases matches.len() - i,
        {
            let score = Self::path_match_score(&matches[i], path);
            proof {
                assert(matches@.take(i as int + 1).drop_last() =~= matches@.take(i as int));
            }
            best = match (best, score) {
                (None, _) => score,
                (_, None) => best,
                (Some(x), Some(y)) => Some(if x >= y { x } else { y }),
            };
            i = i + 1;
        }
        proof {
            assert(matches@.take(matches@.len() as int) =~= matches@);
        }
        best
    }

    /// Finds a backend for `host` and `path` among `routes`, scanned in
    /// order: the rule with the highest (hostname score, path score) wins,
    /// the first such rule on ties, and one of its backends is drawn at
    /// random by weight. `None` when no rule with a backend matches.
    pub fn find_backend_among(routes: &Vec<HttpRoute>, host: &str, path: &str) -> (r: Option<Backend>)
        requires
            forall|k: int| 0 <= k < routes.len() ==> route_fits(#[trigger] routes[k]),
            forall|k: int, l: int| #[trigger] leads_scan(routes@, k, l, host@, path@)
                ==> weights_fit(routes@[k].rules@[l]),
        ensures
            r is None <==> !exists|k: int, l: int| is_candidate(routes@, k, l, host@, path@),
            r matches Some(b) ==> exists|k: int, l: int|
                #[trigger] is_first_best(routes@, k, l, host@, path@)
                    && routes@[k].rules@[l].backends@.contains(b),
    {
        let ghost rs = routes@;
        let ghost hv = host@;
        let ghost pv = path@;
        let mut best: Option<(usize, usize, Backend)> = None;
        let ghost mut bk: int = 0;
        let ghost mut bl: int = 0;
        let mut i: usize = 0;
        while i < routes.len()
            invariant
                rs == routes@,
                hv == host@,
                pv == path@,
                0 <= i <= routes.len(),
                forall|k: int| 0 <= k < routes.len() ==> route_fits(#[trigger] routes[k]),
                forall|k: int, l: int| #[trigger] leads_scan(rs, k, l, hv, pv)
                    ==> weights_fit(rs[k].rules@[l]),
                best is None ==> forall|k: int, l: int|
                    #![trigger is_candidate(rs, k, l, hv, pv)]
                    is_candidate(rs, k, l, hv, pv) ==> !scanned_before(k, l, i as int, 0),
                best matches Some(bb) ==> {
                    &&& first_best_before(rs, bk, bl, i as int, 0, hv, pv)
                    &&& rule_score(rs[bk], bl, hv, pv) == (bb.0 as int, bb.1 as int)
                    &&& rs[bk].rules@[bl].backends@.contains(bb.2)
                },
            decreases routes.len() - i,
        {
            let route = &routes[i];
            proof {
                assert(route_fits(rs[i as int]));
            }
            match Self::best_hostname_score(&route.hostnames, host) {
                None => {
                    proof {
                        assert forall|k: int, l: int|
                            #![trigger is_candidate(rs, k, l, hv, pv)]
                            is_candidate(rs, k, l, hv, pv) && scanned_before(k, l, i + 1, 0)
                            implies scanned_before(k, l, i as int, 0) by {
                            if k == i {
                                assert(!rule_candidate(rs[k], l, hv, pv));
                            }
                        }
                    }
                },
                Some(hs) => {
                    let mut j: usize = 0;
                    while j < route.rules.len()
                        invariant
                            rs == routes@,
                            hv == host@,
                            pv == path@,
                            0 <= i < routes.len(),
                            *route == rs[i as int],
                            route_fits(*route),
                            forall|k: int, l: int| #[trigger] leads_scan(rs, k, l, hv, pv)
                                ==> weights_fit(rs[k].rules@[l]),
                            0 <= j <= route.rules.len(),
                            route_host_score(route.hostnames@, hv) == Some(hs as int),
                            best is None ==> forall|k: int, l: int|
                                #![trigger is_candidate(rs, k, l, hv, pv)]
                                is_candidate(rs, k, l, hv, pv) ==> !scanned_before(
                                    k,
                                    l,
                                    i as int,
                                    j as int,
                                ),
                            best matches Some(bb) ==> {
                                &&& first_best_before(rs, bk, bl, i as int, j as int, hv, pv)
                                &&& rule_score(rs[bk], bl, hv, pv) == (bb.0 as int, bb.1 as int)
                                &&& rs[bk].rules@[bl].backends@.contains(bb.2)
                            },
                        decreases route.rules.len() - j,
                    {
                        let rule = &route.rules[j];
                        proof {
                            assert(rule_fits(route.rules[j as int]));
                        }
                        if rule.backends.len() > 0 {
                            match Self::best_path_score(&rule.matches, path) {
                                Some(ps) => {
                                    proof {
                                        assert(is_candidate(rs, i as int, j as int, hv, pv));
                                        assert(rule_score(rs[i as int], j as int, hv, pv) == (
                                            hs as int,
                                            ps as int,
                                        ));
                                    }
                                    let is_better = match &best {
                                        None => true,
                                        Some(bb) => hs > bb.0 || (hs == bb.0 && ps > bb.1),
                                    };
                                    if is_better {
                                        proof {
                                            let new_score = (hs as int, ps as int);
                                            assert forall|k: int, l: int|
                                                #![trigger is_candidate(rs, k, l, hv, pv)]
                                                is_candidate(rs, k, l, hv, pv) && scanned_before(
                                                    k,
                                                    l,
                                                    i as int,
                                                    j as int,
                                                ) implies outranks(
                                                new_score,
                                                rule_score(rs[k], l, hv, pv),
                                            ) by {
                                                if best is Some {
                                                    let bb = best->0;
                                                    assert(!outranks(
                                                        rule_score(rs[k], l, hv, pv),
                                                        (bb.0 as int, bb.1 as int),
                                                    ));
                                                }
                                            }
                                            assert(leads_scan(rs, i as int, j as int, hv, pv));
                                            bk = i as int;
                                            bl = j as int;
                                        }
                                        let backend = Self::select_backend(&rule.backends, random_below);
                                        best = Some((hs, ps, backend));
                                    } else {
                                        proof {
                                            let bb = best->0;
                                            assert(!outranks(
                                                (hs as int, ps as int),
                                                (bb.0 as int, bb.1 as int),
                                            ));
                                        }
                                    }
                                },
                                None => {
                                    proof {
                                        assert(!is_candidate(rs, i as int, j as int, hv, pv));
                                    }
                                },
                            }
                        } else {
                            proof {
                                assert(!is_candidate(rs, i as int, j as int, hv, pv));
                            }
                        }
                        j = j + 1;
                    }
                    proof {
                        assert forall|k: int, l: int|
                            #![trigger is_candidate(rs, k, l, hv, pv)]
                            is_candidate(rs, k, l, hv, pv) && scanned_before(k, l, i + 1, 0)
                            implies scanned_before(k, l, i as int, j as int) by {}
                    }
                },
            }
            i = i + 1;
        }
        match best {
            Some(bb) => {
                let b = bb.2;
                proof {
                    assert(is_first_best(routes@, bk, bl, host@, path@)
                        && routes@[bk].rules@[bl].backends@.contains(b));
                }
                Some(b)
            },
            None => {
                proof {
                    assert forall|k: int, l: int| !is_candidate(rs, k, l, hv, pv) by {
                        if is_candidate(rs, k, l, hv, pv) {
                            assert(scanned_before(k, l, i as int, 0));
                        }
                    }
                }
                None
            },
        }
    }

    /// Finds a backend for `host` and `path` among the routes of the
    /// store: a backend of a matching rule with the highest (hostname score,
    /// path score), drawn at random by weight; within a route the first
    /// such rule wins. `None` when no rule with a backend matches. Which of
    /// several equally scored rules of different routes wins depends on the
    /// order in which the store hands out its routes, which is left open.
    pub fn find_backend(&self, host: &str, path: &str) -> (r: Option<Backend>)
        requires
            table_fits(self.store_view().http_view()),
            table_weights_fit(self.store_view().http_view(), host@, path@),
        ensures
            r is None <==> !exists|id: Seq<char>, l: int|
                table_candidate(self.store_view().http_view(), id, l, host@, path@),
            r matches Some(b) ==> exists|id: Seq<char>, l: int|
                #[trigger] table_best(self.store_view().http_view(), id, l, host@, path@)
                    && self.store_view().http_view()[id].rules@[l].backends@.contains(b),
    {
        let routes = self.store.get_http_routes();
        let ghost t = self.store_view().http_view();
        let ghost rs = routes@;
        proof {
            assert(lists_http_table(rs, t));
            assert forall|k: int| 0 <= k < routes.len() implies route_fits(#[trigger] routes[k]) by {
                assert(t.contains_key(rs[k].id@));
            }
            assert forall|k: int, l: int| #[trigger] leads_scan(rs, k, l, host@, path@)
                implies weights_fit(rs[k].rules@[l]) by {
                let id = rs[k].id@;
                assert(0 <= k < rs.len());
                assert(t.contains_key(id));
                assert(t[id] == rs[k]);
                assert forall|l2: int|
                    #[trigger] table_candidate(t, id, l2, host@, path@) && l2 < l implies outranks(
                    rule_score(t[id], l, host@, path@),
                    rule_score(t[id], l2, host@, path@),
                ) by {
                    assert(is_candidate(rs, k, l2, host@, path@));
                    assert(scanned_before(k, l2, k, l));
                }
                assert(table_may_lead(t, id, l, host@, path@));
            }
        }
        let r = Self::find_backend_among(&routes, host, path);
        proof {
            // Candidates of the listing and of the table correspond.
            assert forall|id: Seq<char>, l: int|
                #[trigger] table_candidate(t, id, l, host@, path@) implies exists|k: int|
                0 <= k < rs.len() && rs[k].id@ == id && is_candidate(rs, k, l, host@, path@) by {
                let k = choose|k: int| 0 <= k < rs.len() && rs[k].id@ == id;
                assert(t.contains_key(rs[k].id@));
                assert(t[id] == rs[k]);
                assert(is_candidate(rs, k, l, host@, path@));
            }
            assert forall|k: int, l: int|
                #[trigger] is_candidate(rs, k, l, host@, path@) implies table_candidate(
                t,
                rs[k].id@,
                l,
                host@,
                path@,
            ) && t[rs[k].id@] == rs[k] by {
                assert(t.contains_key(rs[k].id@));
            }
            if r is None {
                assert forall|id: Seq<char>, l: int| !table_candidate(t, id, l, host@, path@) by {
                    if table_candidate(t, id, l, host@, path@) {
                        let k = choose|k: int|
                            0 <= k < rs.len() && rs[k].id@ == id && is_candidate(
                                rs,
                                k,
                                l,
                                host@,
                                path@,
                            );
                    }
                }
            } else {
                let b = r->0;
                let (k, l) = choose|k: int, l: int|
                    #[trigger] is_first_best(rs, k, l, host@, path@)
                        && rs[k].rules@[l].backends@.contains(b);
                assert(is_candidate(rs, k, l, host@, path@));
                let id = rs[k].id@;
                assert forall|id2: Seq<char>, l2: int|
                    #[trigger] table_candidate(t, id2, l2, host@, path@) implies !outranks(
                    rule_score(t[id2], l2, host@, path@),
                    rule_score(t[id], l, host@, path@),
                ) by {
                    let k2 = choose|k2: int|
                        0 <= k2 < rs.len() && rs[k2].id@ == id2 && is_candidate(
                            rs,
                            k2,
                            l2,
                            host@,
                            path@,
                        );
                    assert(t[rs[k2].id@] == rs[k2]);
                    assert(scanned_before(k2, l2, rs.len() as int, 0));
                }
                assert forall|l2: int|
                    #[trigger] table_candidate(t, id, l2, host@, path@) && l2 < l implies outranks(
                    rule_score(t[id], l, host@, path@),
                    rule_score(t[id], l2, host@, path@),
                ) by {
                    assert(t[id] == rs[k]);
                    assert(is_candidate(rs, k, l2, host@, path@));
                    assert(scanned_before(k, l2, k, l));
                }
                assert(table_best(t, id, l, host@, path@));
                assert(t[id].rules@[l].backends@.contains(b));
            }
        }
        r
    }

    /// Checks the limits of `route_fits` and `route_weights_fit`: each
    /// hostname at most `usize::MAX - 1000` bytes, each path pattern at most
    /// `usize::MAX - 10000` bytes, each rule's effective weights summing to
    /// at most `u32::MAX`.
    pub fn fits_scoring_limits(route: &HttpRoute) -> (ok: bool)
        ensures
            ok == (route_fits(*route) && route_weights_fit(*route)),
    {
        let mut h: usize = 0;
        while h < route.hostnames.len()
            invariant
                0 <= h <= route.hostnames.len(),
                forall|k: int| 0 <= k < h ==> byte_len(#[trigger] route.hostnames[k]@) + 1000 <= usize::MAX,
            decreases route.hostnames.len() - h,
        {
            if byte_length(route.hostnames[h].as_str()) > usize::MAX - 1000 {
                return false;
            }
            h = h + 1;
        }
        let mut l: usize = 0;
        while l < route.rules.len()
            invariant
                0 <= l <= route.rules.len(),
                forall|k: int| 0 <= k < route.hostnames.len() ==> byte_len(#[trigger] route.hostnames[k]@) + 1000 <= usize::MAX,
                forall|k: int| 0 <= k < l ==> rule_fits(#[trigger] route.rules[k]) && weights_fit(route.rules[k]),
            decreases route.rules.len() - l,
        {
            let rule = &route.rules[l];
            let mut total: u64 = 0;
            let mut b: usize = 0;
            while b < rule.backends.len()
                invariant
                    0 <= l < route.rules.len(),
                    *rule == route.rules[l as int],
                    forall|k: int| 0 <= k < route.hostnames.len() ==> byte_len(#[trigger] route.hostnames[k]@) + 1000 <= usize::MAX,
                    forall|k: int| 0 <= k < l ==> rule_fits(#[trigger] route.rules[k]) && weights_fit(route.rules[k]),
                    0 <= b <= rule.backends.len(),
                    total == weight_prefix(rule.backends@, b as int),
                    total <= u32::MAX,
                decreases rule.backends.len() - b,
            {
                let w: u64 = if rule.backends[b].weight == 0 { 1 } else { rule.backends[b].weight as u64 };
                total = total + w;
                if total > 0xffff_ffff {
                    proof {
                        lemma_weight_prefix_monotone(rule.backends@, b as int + 1, rule.backends@.len() as int);
                        assert(!weights_fit(route.rules[l as int]));
                    }
                    return false;
                }
                b = b + 1;
            }
            let mut m: usize = 0;
            while m < rule.matches.len()
                invariant
                    0 <= l < route.rules.len(),
                    *rule == route.rules[l as int],
                    forall|k: int| 0 <= k < route.hostnames.len() ==> byte_len(#[trigger] route.hostnames[k]@) + 1000 <= usize::MAX,
                    forall|k: int| 0 <= k < l ==> rule_fits(#[trigger] route.rules[k]) && weights_fit(route.rules[k]),
                    total_weight(rule.backends@) <= u32::MAX,
                    0 <= m <= rule.matches.len(),
                    forall|k: int| 0 <= k < m ==> match_fits(#[trigger] rule.matches[k]),
                decreases rule.matches.len() - m,
            {
                match &rule.matches[m].path {
                    Some(pm) => {
                        if byte_length(pm.value.as_str()) > usize::MAX - 10000 {
                            proof {
                                assert(!match_fits(rule.matches[m as int]));
                                assert(!rule_fits(route.rules[l as int]));
                            }
                            return false;
                        }
                    },
                    None => {},
                }
                m = m + 1;
            }
            l = l + 1;
        }
        true
    }

    /// Selects one of `backends` by a draw `threshold`: walking the list,
    /// each backend takes its effective weight off the draw, and the one
    /// under which the draw falls is selected (the first one if none is).
    pub fn pick_weighted(backends: &Vec<Backend>, threshold: u32) -> (b: Backend)
        requires
            backends.len() > 0,
        ensures
            b == weighted_pick(backends@, threshold as int),
    {
        let mut t = threshold;
        let mut i: usize = 0;
        while i < backends.len()
            invariant
                0 <= i <= backends.len(),
                backends.len() > 0,
                weighted_index(backends@, 0, threshold as int) == weighted_index(backends@, i as int, t as int),
            decreases backends.len() - i,
        {
            let w: u32 = if backends[i].weight == 0 { 1 } else { backends[i].weight };
            if t < w {
                return copy_backend(&backends[i]);
            }
            t = t - w;
            i = i + 1;
        }
        copy_backend(&backends[0])
    }

    /// Selects a backend at random, each with probability proportional to
    /// its effective weight; a single backend is always selected. The
    /// randomness comes from `draw`, called once with the total effective
    /// weight as bound: the backend whose share
    /// `[weight_prefix(k), weight_prefix(k + 1))` holds the draw is selected
    /// (see `law_weighted_pick_share`).
    fn select_backend<F: FnOnce(u32) -> u32>(backends: &Vec<Backend>, draw: F) -> (b: Backend)
        requires
            backends.len() > 0,
            total_weight(backends@) <= u32::MAX,
            forall|n: u32| n > 0 ==> #[trigger] draw.requires((n,)),
            forall|n: u32, t: u32| #[trigger] draw.ensures((n,), t) ==> t < n,
        ensures
            backends@.contains(b),
            backends.len() == 1 ==> b == backends@[0],
            backends.len() > 1 ==> exists|t: u32|
                #[trigger] draw.ensures((total_weight(backends@) as u32,), t)
                    && b == weighted_pick(backends@, t as int),
    {
        if backends.len() == 1 {
            return copy_backend(&backends[0]);
        }
        let mut total: u32 = 0;
        let mut i: usize = 0;
        while i < backends.len()
            invariant
                0 <= i <= backends.len(),
                total == weight_prefix(backends@, i as int),
                total_weight(backends@) <= u32::MAX,
            decreases backends.len() - i,
        {
            proof {
                lemma_weight_prefix_monotone(backends@, i as int + 1, backends@.len() as int);
            }
            let w: u32 = if backends[i].weight == 0 { 1 } else { backends[i].weight };
            total = total + w;
            i = i + 1;
        }
        proof {
            lemma_weight_prefix_monotone(backends@, 0, backends@.len() as int);
        }
        let threshold = draw(total);
        let b = Self::pick_weighted(backends, threshold);
        proof {
            lemma_weighted_index_in_range(backends@, 0, threshold as int);
            let k = weighted_index(backends@, 0, threshold as int);
            assert(backends@[k] == b);
            assert(total == total_weight(backends@) as u32);
            assert(draw.ensures((total_weight(backends@) as u32,), threshold));
        }
        b
    }
}

} // verus!
