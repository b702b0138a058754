//! Effective weights of backends and the weighted choice among them.

use vstd::prelude::*;

use crate::api::Backend;

verus! {

/// Weight of a backend as used for selection: a weight of 0 counts as 1.
pub open spec fn effective_weight(b: Backend) -> int {
    if b.weight == 0 {
        1
    } else {
        b.weight as int
    }
}

/// Sum of the effective weights of the first `n` backends.
pub open spec fn weight_prefix(backends: Seq<Backend>, n: int) -> int
    decreases n,
{
    if n <= 0 {
        0
    } else {
        weight_prefix(backends, n - 1) + effective_weight(backends[n - 1])
    }
}

/// Sum of the effective weights of all backends.
pub open spec fn total_weight(backends: Seq<Backend>) -> int {
    weight_prefix(backends, backends.len() as int)
}

/// Index of the backend that a draw `t` selects, scanning from index `i`
/// and taking each backend's weight off `t` in turn; -1 when `t` exceeds
/// the weights that remain.
pub open spec fn weighted_index(backends: Seq<Backend>, i: int, t: int) -> int
    decreases backends.len() - i,
{
    if i < 0 || i >= backends.len() {
        -1
    } else if t < effective_weight(backends[i]) {
        i
    } else {
        weighted_index(backends, i + 1, t - effective_weight(backends[i]))
    }
}

/// The backend that a draw `t` selects; the first one when `t` is out of range.
pub open spec fn weighted_pick(backends: Seq<Backend>, t: int) -> Backend {
    let i = weighted_index(backends, 0, t);
    if i >= 0 {
        backends[i]
    } else {
        backends[0]
    }
}

/// Prefix sums of effective weights grow with the prefix, by at least
/// one per backend.
pub proof fn lemma_weight_prefix_monotone(backends: Seq<Backend>, a: int, b: int)
    requires
        0 <= a <= b,
    ensures
        weight_prefix(backends, a) <= weight_prefix(backends, b),
        weight_prefix(backends, a) + (b - a) <= weight_prefix(backends, b),
    decreases b - a,
{
    if a < b {
        lemma_weight_prefix_monotone(backends, a, b - 1);
    }
}

/// A draw below the weight that remains from index `i` on selects a
/// backend at or after `i`.
pub proof fn lemma_weighted_index_in_range(backends: Seq<Backend>, i: int, t: int)
    requires
        0 <= i <= backends.len(),
        0 <= t < total_weight(backends) - weight_prefix(backends, i),
    ensures
        i <= weighted_index(backends, i, t) < backends.len(),
    decreases backends.len() - i,
{
    if i < backends.len() && t >= effective_weight(backends[i]) {
        lemma_weighted_index_in_range(backends, i + 1, t - effective_weight(backends[i]));
    }
}

/// Weighted choice: a draw `t` selects the backend at index `k` exactly
/// when it falls in `k`'s share `[weight_prefix(k), weight_prefix(k + 1))`
/// of the total weight, so each backend is drawn with probability
/// proportional to its effective weight.
pub proof fn law_weighted_pick_share(backends: Seq<Backend>, k: int, t: int)
    requires
        0 <= k < backends.len(),
        weight_prefix(backends, k) <= t < weight_prefix(backends, k + 1),
    ensures
        weighted_index(backends, 0, t) == k,
        weighted_pick(backends, t) == backends[k],
{
    lemma_weighted_index_shift(backends, 0, k, t);
}

proof fn lemma_weighted_index_shift(backends: Seq<Backend>, i: int, k: int, t: int)
    requires
        0 <= i <= k < backends.len(),
        weight_prefix(backends, k) <= t < weight_prefix(backends, k + 1),
    ensures
        weighted_index(backends, i, t - weight_prefix(backends, i)) == k,
    decreases k - i,
{
    if i < k {
        lemma_weight_prefix_monotone(backends, i + 1, k);
        lemma_weighted_index_shift(backends, i + 1, k, t);
    }
}

} // verus!
