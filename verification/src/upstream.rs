//! Upstream health tracking and weighted round-robin load balancing.
//!
//! Unknown backends count as healthy; a backend becomes unhealthy after
//! `failure_threshold` consecutive failures and healthy again after one
//! success. The load balancer skips unhealthy backends and returns `None`
//! when none is healthy.


use dashmap::DashMap;
use vstd::prelude::*;

use crate::api::Backend;
use crate::weights::{effective_weight, lemma_weight_prefix_monotone, total_weight, weight_prefix};

verus! {

/// Health status of a backend.
#[derive(Debug, Clone, Copy, PartialEq, Eq, Structural)]
pub enum HealthStatus {
    Healthy,
    Unhealthy,
}

/// What a `DashMap<String, HealthStatus>` holds: address to status.
pub uninterp spec fn status_entries(m: DashMap<String, HealthStatus>) -> Map<Seq<char>, HealthStatus>;

/// What a `DashMap<String, u32>` holds: address to failure count.
pub uninterp spec fn count_entries(m: DashMap<String, u32>) -> Map<Seq<char>, u32>;

/// Calls `DashMap::new`: the new map is empty.
#[verifier::external_body]
fn status_map_new() -> (m: DashMap<String, HealthStatus>)
    ensures
        status_entries(m) == no_statuses(),
{
    DashMap::new()
}

/// Calls `DashMap::insert`: `key` now maps to `value`, every other entry stays.
#[verifier::external_body]
fn status_map_insert(m: &mut DashMap<String, HealthStatus>, key: String, value: HealthStatus)
    ensures
        status_entries(*final(m)) == status_entries(*old(m)).insert(key@, value),
{
    m.insert(key, value);
}

/// Calls `DashMap::get` and copies the value found, if any.
#[verifier::external_body]
fn status_map_get(m: &DashMap<String, HealthStatus>, key: &str) -> (r: Option<HealthStatus>)
    ensures
        r == (if status_entries(*m).contains_key(key@) {
            Some(status_entries(*m)[key@])
        } else {
            None
        }),
{
    m.get(key).map(|e| *e.value())
}

/// Calls `DashMap::remove`: `key` no longer has an entry, every other entry stays.
#[verifier::external_body]
fn status_map_remove(m: &mut DashMap<String, HealthStatus>, key: &str)
    ensures
        status_entries(*final(m)) == status_entries(*old(m)).remove(key@),
{
    m.remove(key);
}

/// Calls `DashMap::new`: the new map is empty.
#[verifier::external_body]
fn count_map_new() -> (m: DashMap<String, u32>)
    ensures
        count_entries(m) == no_counts(),
{
    DashMap::new()
}

/// Calls `DashMap::insert`: `key` now maps to `value`, every other entry stays.
#[verifier::external_body]
fn count_map_insert(m: &mut DashMap<String, u32>, key: String, value: u32)
    ensures
        count_entries(*final(m)) == count_entries(*old(m)).insert(key@, value),
{
    m.insert(key, value);
}

/// Calls `DashMap::get` and copies the value found, if any.
#[verifier::external_body]
fn count_map_get(m: &DashMap<String, u32>, key: &str) -> (r: Option<u32>)
    ensures
        r == (if count_entries(*m).contains_key(key@) {
            Some(count_entries(*m)[key@])
        } else {
            None
        }),
{
    m.get(key).map(|e| *e.value())
}

/// Calls `DashMap::remove`: `key` no longer has an entry, every other entry stays.
#[verifier::external_body]
fn count_map_remove(m: &mut DashMap<String, u32>, key: &str)
    ensures
        count_entries(*final(m)) == count_entries(*old(m)).remove(key@),
{
    m.remove(key);
}

/// No status recorded.
pub open spec fn no_statuses() -> Map<Seq<char>, HealthStatus> {
    Map::empty()
}

/// No failure count recorded.
pub open spec fn no_counts() -> Map<Seq<char>, u32> {
    Map::empty()
}

/// The state of a health tracker: recorded statuses, consecutive failure
/// counts, and the number of failures that makes a backend unhealthy.
pub struct HealthView {
    pub status: Map<Seq<char>, HealthStatus>,
    pub failures: Map<Seq<char>, u32>,
    pub threshold: u32,
}

impl HealthView {
    /// A backend is healthy unless it is recorded as unhealthy.
    pub open spec fn healthy(self, address: Seq<char>) -> bool {
        !self.status.contains_key(address) || self.status[address] == HealthStatus::Healthy
    }

    /// Consecutive failures recorded for a backend (0 when none).
    pub open spec fn failure_count(self, address: Seq<char>) -> int {
        if self.failures.contains_key(address) {
            self.failures[address] as int
        } else {
            0
        }
    }

    /// The state after a success: count back to 0, status healthy.
    pub open spec fn after_success(self, address: Seq<char>) -> HealthView {
        HealthView {
            status: self.status.insert(address, HealthStatus::Healthy),
            failures: self.failures.insert(address, 0),
            threshold: self.threshold,
        }
    }

    /// The state after a failure: count up by one, status unhealthy once
    /// the count reaches the threshold.
    pub open spec fn after_failure(self, address: Seq<char>) -> HealthView {
        let count = self.failure_count(address) + 1;
        HealthView {
            status: if count >= self.threshold {
                self.status.insert(address, HealthStatus::Unhealthy)
            } else {
                self.status
            },
            failures: self.failures.insert(address, count as u32),
            threshold: self.threshold,
        }
    }

    /// The state after a reset: nothing recorded for the backend.
    pub open spec fn after_reset(self, address: Seq<char>) -> HealthView {
        HealthView {
            status: self.status.remove(address),
            failures: self.failures.remove(address),
            threshold: self.threshold,
        }
    }

    /// The state after `n` failures in a row.
    pub open spec fn after_failures(self, address: Seq<char>, n: nat) -> HealthView
        decreases n,
    {
        if n == 0 {
            self
        } else {
            self.after_failures(address, (n - 1) as nat).after_failure(address)
        }
    }

    /// The healthy backends of `backends`, in order.
    pub open spec fn healthy_only(self, backends: Seq<Backend>) -> Seq<Backend>
        decreases backends.len(),
    {
        if backends.len() == 0 {
            Seq::empty()
        } else if self.healthy(backends.last().address@) {
            self.healthy_only(backends.drop_last()).push(backends.last())
        } else {
            self.healthy_only(backends.drop_last())
        }
    }
}

/// Tracks the health of backends by address.
pub struct HealthTracker {
    health: DashMap<String, HealthStatus>,
    failures: DashMap<String, u32>,
    failure_threshold: u32,
}

impl View for HealthTracker {
    type V = HealthView;

    closed spec fn view(&self) -> HealthView {
        HealthView {
            status: status_entries(self.health),
            failures: count_entries(self.failures),
            threshold: self.failure_threshold,
        }
    }
}

impl HealthTracker {
    /// Creates a tracker under which a backend becomes unhealthy after
    /// `failure_threshold` consecutive failures.
    pub fn new(failure_threshold: u32) -> (t: Self)
        ensures
            t@.status == no_statuses(),
            t@.failures == no_counts(),
            t@.threshold == failure_threshold,
    {
        HealthTracker {
            health: status_map_new(),
            failures: count_map_new(),
            failure_threshold,
        }
    }

    /// Records a successful request: the failure count goes back to 0 and
    /// the backend is healthy.
    pub fn record_success(&mut self, address: &str)
        ensures
            final(self)@ == old(self)@.after_success(address@),
    {
        count_map_insert(&mut self.failures, address.to_owned(), 0);
        status_map_insert(&mut self.health, address.to_owned(), HealthStatus::Healthy);
    }

    /// Records a failed request: the failure count goes up by one, and the
    /// backend is marked unhealthy once it reaches the threshold.
    pub fn record_failure(&mut self, address: &str)
        requires
            old(self)@.failure_count(address@) < u32::MAX,
        ensures
            final(self)@ == old(self)@.after_failure(address@),
    {
        let count: u32 = match count_map_get(&self.failures, address) {
            Some(c) => c,
            None => 0,
        };
        let count = count + 1;
        count_map_insert(&mut self.failures, address.to_owned(), count);
        if count >= self.failure_threshold {
            status_map_insert(&mut self.health, address.to_owned(), HealthStatus::Unhealthy);
        }
    }

    /// Returns the number of consecutive failures recorded for a backend.
    pub fn failure_count(&self, address: &str) -> (n: u32)
        ensures
            n as int == self@.failure_count(address@),
    {
        match count_map_get(&self.failures, address) {
            Some(c) => c,
            None => 0,
        }
    }

    /// Returns whether a backend is healthy; unknown backends are.
    pub fn is_healthy(&self, address: &str) -> (h: bool)
        ensures
            h == self@.healthy(address@),
    {
        match status_map_get(&self.health, address) {
            Some(status) => status == HealthStatus::Healthy,
            None => true,
        }
    }

    /// Forgets a backend: no failure count and no status (so it is healthy).
    pub fn reset(&mut self, address: &str)
        ensures
            final(self)@ == old(self)@.after_reset(address@),
    {
        count_map_remove(&mut self.failures, address);
        status_map_remove(&mut self.health, address);
    }

    /// Returns how many of `backends` are healthy.
    pub fn healthy_count(&self, backends: &[Backend]) -> (n: usize)
        ensures
            n == self@.healthy_only(backends@).len(),
    {
        let mut n: usize = 0;
        let mut i: usize = 0;
        while i < backends.len()
            invariant
                0 <= i <= backends.len(),
                n == self@.healthy_only(backends@.take(i as int)).len(),
                n <= i,
            decreases backends.len() - i,
        {
            proof {
                assert(backends@.take(i as int + 1).drop_last() =~= backends@.take(i as int));
            }
            if self.is_healthy(backends[i].address.as_str()) {
                n = n + 1;
            }
            i = i + 1;
        }
        proof {
            assert(backends@.take(backends@.len() as int) =~= backends@);
        }
        n
    }
}

/// Each backend repeated as many times as its effective weight, in order:
/// the cycle that weighted round-robin walks through.
pub open spec fn expanded(backends: Seq<Backend>) -> Seq<Backend>
    decreases backends.len(),
{
    if backends.len() == 0 {
        Seq::empty()
    } else {
        expanded(backends.drop_last()) + Seq::new(
            effective_weight(backends.last()) as nat,
            |k: int| backends.last(),
        )
    }
}

/// The round-robin counter after one more selection (it wraps around).
pub open spec fn next_counter(c: usize) -> usize {
    if c == usize::MAX {
        0
    } else {
        (c + 1) as usize
    }
}

/// Weighted round-robin load balancer that skips unhealthy backends.
pub struct LoadBalancer {
    current: usize,
    health_tracker: HealthTracker,
}

impl LoadBalancer {
    /// The round-robin counter.
    pub closed spec fn counter(&self) -> usize {
        self.current
    }

    /// The state of the health tracker consulted.
    pub closed spec fn tracker_view(&self) -> HealthView {
        self.health_tracker@
    }

    /// Creates a load balancer that consults `health_tracker`; its
    /// counter starts at 0.
    pub fn new(health_tracker: HealthTracker) -> (lb: Self)
        ensures
            lb.counter() == 0,
            lb.tracker_view() == health_tracker@,
    {
        LoadBalancer { current: 0, health_tracker }
    }

    /// Indices of the healthy backends, in order.
    fn healthy_indices(&self, backends: &[Backend]) -> (ix: Vec<usize>)
        ensures
            ix.len() == self.tracker_view().healthy_only(backends@).len(),
            forall|k: int| 0 <= k < ix.len() ==> ix@[k] < backends.len() && backends@[#[trigger] ix@[k] as int]
                == self.tracker_view().healthy_only(backends@)[k],
    {
        let ghost v = self.tracker_view();
        let mut ix: Vec<usize> = Vec::new();
        let mut i: usize = 0;
        while i < backends.len()
            invariant
                0 <= i <= backends.len(),
                v == self.tracker_view(),
                ix.len() == v.healthy_only(backends@.take(i as int)).len(),
                forall|k: int| 0 <= k < ix.len() ==> ix@[k] < backends.len() && backends@[#[trigger] ix@[k] as int]
                    == v.healthy_only(backends@.take(i as int))[k],
            decreases backends.len() - i,
        {
            proof {
                assert(backends@.take(i as int + 1).drop_last() =~= backends@.take(i as int));
                assert(backends@.take(i as int + 1).last() == backends@[i as int]);
            }
            if self.health_tracker.is_healthy(backends[i].address.as_str()) {
                ix.push(i);
            }
            i = i + 1;
        }
        proof {
            assert(backends@.take(backends@.len() as int) =~= backends@);
        }
        ix
    }

    /// Selects the next backend by weighted round-robin over the healthy
    /// backends; `None` (and the counter unchanged) when none is healthy.
    pub fn next<'a>(&mut self, backends: &'a [Backend]) -> (r: Option<&'a Backend>)
        ensures
            final(self).tracker_view() == old(self).tracker_view(),
            r is None <==> old(self).tracker_view().healthy_only(backends@).len() == 0,
            ({
                let cycle = expanded(old(self).tracker_view().healthy_only(backends@));
                &&& cycle.len() == 0 ==> r is None && final(self).counter() == old(self).counter()
                &&& cycle.len() > 0 ==> r is Some && *r->0 == cycle[(old(self).counter() as int) % (cycle.len() as int)]
                    && final(self).counter() == next_counter(old(self).counter())
            }),
    {
        let healthy = self.healthy_indices(backends);
        let ghost h = self.tracker_view().healthy_only(backends@);
        if healthy.len() == 0 {
            proof {
                assert(h.len() == 0);
                assert(expanded(h) =~= Seq::<Backend>::empty());
            }
            return None;
        }
        let mut cycle: Vec<usize> = Vec::new();
        let mut j: usize = 0;
        while j < healthy.len()
            invariant
                0 <= j <= healthy.len(),
                healthy.len() == h.len(),
                forall|k: int| 0 <= k < healthy.len() ==> healthy@[k] < backends.len() && backends@[#[trigger] healthy@[k] as int] == h[k],
                cycle.len() == expanded(h.take(j as int)).len(),
                forall|k: int| 0 <= k < cycle.len() ==> cycle@[k] < backends.len() && backends@[#[trigger] cycle@[k] as int]
                    == expanded(h.take(j as int))[k],
            decreases healthy.len() - j,
        {
            let b = healthy[j];
            let w: u32 = if backends[b].weight == 0 { 1 } else { backends[b].weight };
            let ghost before = expanded(h.take(j as int));
            proof {
                assert(h.take(j as int + 1).drop_last() =~= h.take(j as int));
                assert(h.take(j as int + 1).last() == h[j as int]);
            }
            let mut c: u32 = 0;
            while c < w
                invariant
                    0 <= c <= w,
                    b < backends.len(),
                    cycle.len() == before.len() + c,
                    forall|k: int| 0 <= k < cycle.len() ==> cycle@[k] < backends.len() && backends@[#[trigger] cycle@[k] as int]
                        == (before + Seq::new(c as nat, |x: int| backends@[b as int]))[k],
                decreases w - c,
            {
                cycle.push(b);
                c = c + 1;
            }
            proof {
                assert(effective_weight(h[j as int]) == w);
                assert(expanded(h.take(j as int + 1)) =~= before + Seq::new(w as nat, |x: int| backends@[b as int]));
            }
            j = j + 1;
        }
        proof {
            assert(h.take(h.len() as int) =~= h);
            law_cycle_length(h);
        }
        let idx = self.current % cycle.len();
        self.current = if self.current == usize::MAX { 0 } else { self.current + 1 };
        Some(&backends[cycle[idx]])
    }

    /// Returns the healthy backends, in order.
    pub fn healthy_backends<'a>(&self, backends: &'a [Backend]) -> (r: Vec<&'a Backend>)
        ensures
            r.len() == self.tracker_view().healthy_only(backends@).len(),
            forall|k: int| 0 <= k < r.len() ==> *#[trigger] r@[k] == self.tracker_view().healthy_only(backends@)[k],
    {
        let ix = self.healthy_indices(backends);
        let mut r: Vec<&'a Backend> = Vec::new();
        let mut k: usize = 0;
        while k < ix.len()
            invariant
                0 <= k <= ix.len(),
                r.len() == k,
                forall|m: int| 0 <= m < ix.len() ==> ix@[m] < backends.len() && backends@[#[trigger] ix@[m] as int]
                    == self.tracker_view().healthy_only(backends@)[m],
                forall|m: int| 0 <= m < k ==> *#[trigger] r@[m] == self.tracker_view().healthy_only(backends@)[m],
            decreases ix.len() - k,
        {
            r.push(&backends[ix[k]]);
            k = k + 1;
        }
        r
    }

    /// Returns the health tracker this load balancer consults.
    pub fn health_tracker(&self) -> (t: &HealthTracker)
        ensures
            t@ == self.tracker_view(),
    {
        &self.health_tracker
    }

    /// Gives access to the health tracker this load balancer consults, to
    /// record outcomes on it: what is recorded there is what later
    /// selections see. The counter is left as it is.
    pub fn health_tracker_mut(&mut self) -> (t: &mut HealthTracker)
        ensures
            t@ == old(self).tracker_view(),
            final(self).tracker_view() == final(t)@,
            final(self).counter() == old(self).counter(),
    {
        &mut self.health_tracker
    }
}

// ---------------------------------------------------------------------
// Laws of health tracking
// ---------------------------------------------------------------------

/// A backend with no recorded status is healthy; in particular every
/// backend is healthy for a new tracker.
pub proof fn law_unknown_backend_healthy(v: HealthView, address: Seq<char>)
    requires
        !v.status.contains_key(address),
    ensures
        v.healthy(address),
{
}

/// Counted from a healthy backend with no failures, `n` failures in a row
/// are all counted, and leave the backend unhealthy exactly when `n` is
/// positive and has reached the threshold.
pub proof fn law_failures_reach_threshold(v: HealthView, address: Seq<char>, n: nat)
    requires
        v.healthy(address),
        v.failure_count(address) == 0,
        n <= u32::MAX,
    ensures
        v.after_failures(address, n).failure_count(address) == n,
        v.after_failures(address, n).healthy(address) <==> (n == 0 || n < v.threshold),
        v.after_failures(address, n).threshold == v.threshold,
    decreases n,
{
    if n > 0 {
        law_failures_reach_threshold(v, address, (n - 1) as nat);
    }
}

/// One success restores a backend: healthy, with no failures counted.
pub proof fn law_success_restores(v: HealthView, address: Seq<char>)
    ensures
        v.after_success(address).healthy(address),
        v.after_success(address).failure_count(address) == 0,
{
}

/// A reset forgets a backend: healthy, with no failures counted.
pub proof fn law_reset_forgets(v: HealthView, address: Seq<char>)
    ensures
        v.after_reset(address).healthy(address),
        v.after_reset(address).failure_count(address) == 0,
{
}

/// What is recorded for one address leaves every other address as it was.
pub proof fn law_records_are_per_address(v: HealthView, a: Seq<char>, b: Seq<char>)
    requires
        a != b,
    ensures
        v.after_success(a).healthy(b) == v.healthy(b),
        v.after_success(a).failure_count(b) == v.failure_count(b),
        v.after_failure(a).healthy(b) == v.healthy(b),
        v.after_failure(a).failure_count(b) == v.failure_count(b),
        v.after_reset(a).healthy(b) == v.healthy(b),
        v.after_reset(a).failure_count(b) == v.failure_count(b),
{
}

proof fn lemma_filter_keeps_only(s: Seq<Backend>, pred: spec_fn(Backend) -> bool, j: int)
    requires
        0 <= j < s.filter(pred).len(),
    ensures
        pred(s.filter(pred)[j]),
    decreases s.len(),
{
    reveal_with_fuel(Seq::filter, 2);
    if s.len() > 0 {
        let sub = s.drop_last().filter(pred);
        if j < sub.len() {
            lemma_filter_keeps_only(s.drop_last(), pred, j);
        }
    }
}

/// The backends that health filtering keeps are exactly the healthy ones,
/// in their order, whatever failures are counted for them: the result is
/// `backends` filtered by `healthy`, so a backend is kept exactly when it
/// is listed and healthy.
pub proof fn law_healthy_only_keeps_exactly_healthy(v: HealthView, backends: Seq<Backend>)
    ensures
        v.healthy_only(backends) == backends.filter(|b: Backend| v.healthy(b.address@)),
        forall|b: Backend| #[trigger] v.healthy_only(backends).contains(b)
            <==> backends.contains(b) && v.healthy(b.address@),
    decreases backends.len(),
{
    let pred = |b: Backend| v.healthy(b.address@);
    if backends.len() > 0 {
        law_healthy_only_keeps_exactly_healthy(v, backends.drop_last());
    }
    reveal_with_fuel(Seq::filter, 2);
    assert(v.healthy_only(backends) == backends.filter(pred));
    assert forall|b: Backend| #[trigger] v.healthy_only(backends).contains(b)
        <==> backends.contains(b) && v.healthy(b.address@) by {
        let f = backends.filter(pred);
        if backends.contains(b) && v.healthy(b.address@) {
            let i = choose|i: int| 0 <= i < backends.len() && backends[i] == b;
            backends.lemma_filter_contains(pred, i);
        }
        if f.contains(b) {
            backends.lemma_filter_contains_rev(pred, b);
            let j = choose|j: int| 0 <= j < f.len() && f[j] == b;
            lemma_filter_keeps_only(backends, pred, j);
        }
    }
}

/// A record made on a health tracker, by address.
pub enum HealthEvent {
    Success(Seq<char>),
    Failure(Seq<char>),
    Reset(Seq<char>),
}

impl HealthView {
    /// The state after one record.
    pub open spec fn after_event(self, e: HealthEvent) -> HealthView {
        match e {
            HealthEvent::Success(x) => self.after_success(x),
            HealthEvent::Failure(x) => self.after_failure(x),
            HealthEvent::Reset(x) => self.after_reset(x),
        }
    }

    /// The state after the records of `es`, in order.
    pub open spec fn after_events(self, es: Seq<HealthEvent>) -> HealthView
        decreases es.len(),
    {
        if es.len() == 0 {
            self
        } else {
            self.after_events(es.drop_last()).after_event(es.last())
        }
    }
}

/// Failures recorded for `a` in `es` since its last success or reset (or
/// since the start of `es`).
pub open spec fn failures_since_restore(es: Seq<HealthEvent>, a: Seq<char>) -> nat
    decreases es.len(),
{
    if es.len() == 0 {
        0
    } else {
        let rest = failures_since_restore(es.drop_last(), a);
        match es.last() {
            HealthEvent::Failure(x) => if x == a { rest + 1 } else { rest },
            HealthEvent::Success(x) => if x == a { 0 } else { rest },
            HealthEvent::Reset(x) => if x == a { 0 } else { rest },
        }
    }
}

/// All failures recorded for `a` in `es`.
pub open spec fn failure_records(es: Seq<HealthEvent>, a: Seq<char>) -> nat
    decreases es.len(),
{
    if es.len() == 0 {
        0
    } else {
        let rest = failure_records(es.drop_last(), a);
        match es.last() {
            HealthEvent::Failure(x) => if x == a { rest + 1 } else { rest },
            _ => rest,
        }
    }
}

/// Health over a history of records, starting from a backend with nothing
/// recorded (as under a new tracker): its failure count is the number of
/// failures recorded for it since its last success or reset, and it is
/// healthy exactly when that number is zero or below the threshold. What
/// is recorded for other addresses does not matter.
pub proof fn law_health_over_history(v: HealthView, es: Seq<HealthEvent>, a: Seq<char>)
    requires
        !v.status.contains_key(a),
        !v.failures.contains_key(a),
        failure_records(es, a) < u32::MAX,
    ensures
        v.after_events(es).failure_count(a) == failures_since_restore(es, a),
        v.after_events(es).healthy(a) <==> (failures_since_restore(es, a) == 0
            || failures_since_restore(es, a) < v.threshold),
        v.after_events(es).threshold == v.threshold,
    decreases es.len(),
{
    if es.len() > 0 {
        let init = es.drop_last();
        law_health_over_history(v, init, a);
        lemma_since_restore_at_most_records(init, a);
    }
}

proof fn lemma_since_restore_at_most_records(es: Seq<HealthEvent>, a: Seq<char>)
    ensures
        failures_since_restore(es, a) <= failure_records(es, a),
    decreases es.len(),
{
    if es.len() > 0 {
        lemma_since_restore_at_most_records(es.drop_last(), a);
    }
}

// ---------------------------------------------------------------------
// Laws of weighted round-robin
// ---------------------------------------------------------------------

proof fn lemma_weight_prefix_drop_last(backends: Seq<Backend>, n: int)
    requires
        0 <= n < backends.len(),
    ensures
        weight_prefix(backends, n) == weight_prefix(backends.drop_last(), n),
    decreases n,
{
    if n > 0 {
        lemma_weight_prefix_drop_last(backends, n - 1);
    }
}

/// The cycle is as long as the total effective weight, which is at least
/// the number of backends: it is empty exactly when there is no backend.
pub proof fn law_cycle_length(backends: Seq<Backend>)
    ensures
        expanded(backends).len() == total_weight(backends),
        total_weight(backends) >= backends.len(),
    decreases backends.len(),
{
    if backends.len() > 0 {
        let init = backends.drop_last();
        law_cycle_length(init);
        lemma_weight_prefix_drop_last(backends, backends.len() - 1);
    }
}

/// The cycle lists the backends in order, backend `k` filling the
/// positions `[weight_prefix(k), weight_prefix(k + 1))`: each backend
/// appears as many times as its effective weight.
pub proof fn law_cycle_layout(backends: Seq<Backend>, k: int, m: int)
    requires
        0 <= k < backends.len(),
        weight_prefix(backends, k) <= m < weight_prefix(backends, k + 1),
    ensures
        expanded(backends)[m] == backends[k],
    decreases backends.len(),
{
    let init = backends.drop_last();
    law_cycle_length(init);
    lemma_weight_prefix_monotone(backends, 0, k);
    if k < backends.len() - 1 {
        lemma_weight_prefix_drop_last(backends, k);
        lemma_weight_prefix_drop_last(backends, k + 1);
        lemma_weight_prefix_monotone(init, k + 1, init.len() as int);
        law_cycle_layout(init, k, m);
        assert(m < expanded(init).len());
        assert(expanded(backends) == expanded(init) + Seq::new(
            effective_weight(backends.last()) as nat,
            |x: int| backends.last(),
        ));
        assert(expanded(backends)[m] == expanded(init)[m]);
        assert(init[k] == backends[k]);
    } else {
        lemma_weight_prefix_drop_last(backends, k);
        assert(m >= expanded(init).len());
        assert(expanded(backends) == expanded(init) + Seq::new(
            effective_weight(backends.last()) as nat,
            |x: int| backends.last(),
        ));
        assert(m - expanded(init).len() < effective_weight(backends.last()));
    }
}

/// Over as many consecutive selections as the cycle is long, starting at
/// counter `c` without wrap-around, round-robin walks the whole cycle once,
/// from position `c % len`: the selections are the cycle rotated.
pub proof fn law_round_robin_rotation(cycle: Seq<Backend>, c: int)
    requires
        cycle.len() > 0,
        c >= 0,
    ensures
        Seq::new(cycle.len(), |i: int| cycle[(c + i) % (cycle.len() as int)])
            == cycle.skip(c % (cycle.len() as int)) + cycle.take(c % (cycle.len() as int)),
{
    let len = cycle.len() as int;
    let r = c % len;
    vstd::arithmetic::div_mod::lemma_mod_pos_bound(c, len);
    let rotated = Seq::new(cycle.len(), |i: int| cycle[(c + i) % len]);
    assert forall|i: int| 0 <= i < len implies #[trigger] rotated[i] == (cycle.skip(r) + cycle.take(r))[i] by {
        vstd::arithmetic::div_mod::lemma_add_mod_noop(c, i, len);
        vstd::arithmetic::div_mod::lemma_small_mod(i as nat, len as nat);
        if r + i < len {
            vstd::arithmetic::div_mod::lemma_small_mod((r + i) as nat, len as nat);
        } else {
            vstd::arithmetic::div_mod::lemma_mod_multiples_vanish(1, r + i - len, len);
            vstd::arithmetic::div_mod::lemma_small_mod((r + i - len) as nat, len as nat);
        }
    }
    assert(rotated =~= cycle.skip(r) + cycle.take(r));
}

} // verus!
