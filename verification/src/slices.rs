//! One search budget, divided into equal slices — one per root
//! determinization.
//!
//! A node budget is partitioned exactly: every slice gets `total / n`
//! simulations and the first `total % n` slices get one more, so the slices
//! sum to the whole budget however indivisible it is (`20` nodes over `3`
//! trees is `7 + 7 + 6`). A time budget is sliced by absolute deadlines
//! measured from one shared start — slice `i` ends `total·(i+1)/n`
//! milliseconds in — so an overshooting slice eats into the next rather than
//! adding to the total. Reading the clock against those deadlines is the
//! driver's job.

use vstd::prelude::*;

verus! {

/// How much work one decision may spend.
#[derive(Debug, Clone, Copy, PartialEq, Eq, Structural)]
pub enum Budget {
    /// At most this many search nodes (simulations).
    Nodes(u64),
    /// About this many milliseconds of wall-clock time.
    TimeMs(u64),
}

/// A budget divided into `n` slices.
#[derive(Debug, Clone, Copy, PartialEq, Eq, Structural)]
pub enum Slices {
    Nodes { total: u64, n: u64 },
    Time { total_ms: u64, n: u64 },
}

/// Slice `i`'s share of a `total`-node budget split `n` ways.
pub open spec fn node_share(total: int, n: int, i: int) -> int {
    total / n + if i < total % n {
        1int
    } else {
        0int
    }
}

/// The shares of the first `k` slices, added up.
pub open spec fn shares_sum(total: int, n: int, k: int) -> int
    decreases k,
{
    if k <= 0 {
        0
    } else {
        shares_sum(total, n, k - 1) + node_share(total, n, k - 1)
    }
}

/// Slice `i` of a `total`-millisecond budget split `n` ways ends this many
/// milliseconds after the shared start.
pub open spec fn deadline_of(total_ms: int, n: int, i: int) -> int {
    total_ms * (i + 1) / n
}

impl Slices {
    /// There is at least one slice.
    pub open spec fn wf(&self) -> bool {
        match *self {
            Slices::Nodes { n, .. } => n >= 1,
            Slices::Time { n, .. } => n >= 1,
        }
    }

    /// Divide `budget` into `n` slices, `n` floored at one.
    pub fn new(budget: Budget, n: usize) -> (s: Slices)
        ensures
            s.wf(),
            s == match budget {
                Budget::Nodes(total) => Slices::Nodes {
                    total,
                    n: if n == 0 {
                        1
                    } else {
                        n as u64
                    },
                },
                Budget::TimeMs(total_ms) => Slices::Time {
                    total_ms,
                    n: if n == 0 {
                        1
                    } else {
                        n as u64
                    },
                },
            },
    {
        let n: u64 = if n == 0 {
            1
        } else {
            n as u64
        };
        match budget {
            Budget::Nodes(total) => Slices::Nodes { total, n },
            Budget::TimeMs(total_ms) => Slices::Time { total_ms, n },
        }
    }

    /// How many simulations slice `i` of a node budget runs: its share,
    /// floored at one, since a slice of zero still needs one simulation to
    /// have a visited child to choose between. `None` for a time budget.
    pub fn simulations(&self, i: u64) -> (r: Option<u64>)
        requires
            self.wf(),
        ensures
            match *self {
                Slices::Nodes { total, n } => r == Some(
                    if node_share(total as int, n as int, i as int) >= 1 {
                        node_share(total as int, n as int, i as int) as u64
                    } else {
                        1u64
                    },
                ),
                Slices::Time { .. } => r is None,
            },
    {
        match *self {
            Slices::Nodes { total, n } => {
                let extra: u64 = if i < total % n {
                    1
                } else {
                    0
                };
                proof {
                    assert(total / n <= total) by {
                        vstd::arithmetic::div_mod::lemma_div_is_ordered_by_denominator(
                            total as int,
                            1,
                            n as int,
                        );
                    }
                    assert(total % n < n);
                    assert(total / n + extra <= u64::MAX) by {
                        if total / n == total {
                            assert(n == 1 || total == 0) by {
                                if n > 1 && total > 0 {
                                    vstd::arithmetic::div_mod::lemma_div_decreases(
                                        total as int,
                                        n as int,
                                    );
                                }
                            }
                        }
                    }
                }
                let sims = total / n + extra;
                if sims >= 1 {
                    Some(sims)
                } else {
                    Some(1)
                }
            },
            Slices::Time { .. } => None,
        }
    }

    /// When slice `i` of a time budget ends, in milliseconds after the
    /// shared start. `None` for a node budget.
    pub fn deadline_ms(&self, i: u64) -> (r: Option<u64>)
        requires
            self.wf(),
            match *self {
                Slices::Time { n, .. } => i < n,
                Slices::Nodes { .. } => true,
            },
        ensures
            match *self {
                Slices::Time { total_ms, n } => r == Some(
                    deadline_of(total_ms as int, n as int, i as int) as u64,
                ) && deadline_of(total_ms as int, n as int, i as int) <= total_ms,
                Slices::Nodes { .. } => r is None,
            },
    {
        match *self {
            Slices::Time { total_ms, n } => {
                proof {
                    assert((total_ms as u128) * ((i as u128) + 1) <= 0xFFFF_FFFF_FFFF_FFFF_0000_0000_0000_0000u128) by (nonlinear_arith)
                        requires
                            total_ms <= 0xFFFF_FFFF_FFFF_FFFFu64,
                            i <= 0xFFFF_FFFF_FFFF_FFFFu64,
                    ;
                }
                let prod: u128 = (total_ms as u128) * ((i as u128) + 1);
                proof {
                    lemma_deadline_within(total_ms as int, n as int, i as int);
                }
                let elapsed = prod / (n as u128);
                Some(elapsed as u64)
            },
            Slices::Nodes { .. } => None,
        }
    }
}

/// Every slice of a time budget ends no later than the whole budget does.
pub proof fn lemma_deadline_within(total_ms: int, n: int, i: int)
    requires
        0 <= total_ms,
        0 <= i < n,
    ensures
        0 <= deadline_of(total_ms, n, i) <= total_ms,
{
    assert(total_ms * (i + 1) <= total_ms * n) by (nonlinear_arith)
        requires
            0 <= total_ms,
            0 <= i < n,
    ;
    assert(0 <= total_ms * (i + 1)) by (nonlinear_arith)
        requires
            0 <= total_ms,
            0 <= i,
    ;
    vstd::arithmetic::div_mod::lemma_div_is_ordered(total_ms * (i + 1), total_ms * n, n);
    vstd::arithmetic::div_mod::lemma_div_multiples_vanish(total_ms, n);
    assert(n * total_ms == total_ms * n) by (nonlinear_arith);
    vstd::arithmetic::div_mod::lemma_div_pos_is_pos(total_ms * (i + 1), n);
}

/// The deadlines of a time budget never move backwards, and the last one is
/// the whole budget.
pub proof fn lemma_deadlines_chain(total_ms: int, n: int, i: int)
    requires
        0 <= total_ms,
        0 <= i,
        i + 1 < n,
    ensures
        deadline_of(total_ms, n, i) <= deadline_of(total_ms, n, i + 1),
        deadline_of(total_ms, n, n - 1) == total_ms,
{
    assert(total_ms * (i + 1) <= total_ms * (i + 2)) by (nonlinear_arith)
        requires
            0 <= total_ms,
            0 <= i,
    ;
    vstd::arithmetic::div_mod::lemma_div_is_ordered(total_ms * (i + 1), total_ms * (i + 2), n);
    assert(total_ms * (n - 1 + 1) == n * total_ms) by (nonlinear_arith);
    vstd::arithmetic::div_mod::lemma_div_multiples_vanish(total_ms, n);
}

/// The first `k` slices of a node budget hold `k · (total / n)` simulations
/// plus one for each of them among the first `total % n`.
proof fn lemma_shares_prefix(total: int, n: int, k: int)
    requires
        0 <= total,
        1 <= n,
        0 <= k <= n,
    ensures
        shares_sum(total, n, k) == k * (total / n) + if k < total % n {
            k
        } else {
            total % n
        },
    decreases k,
{
    vstd::arithmetic::div_mod::lemma_mod_bound(total, n);
    let q = total / n;
    let r = total % n;
    if k > 0 {
        lemma_shares_prefix(total, n, k - 1);
        assert(k * q == (k - 1) * q + q) by (nonlinear_arith);
        assert(shares_sum(total, n, k) == shares_sum(total, n, k - 1) + node_share(total, n, k - 1));
        assert(node_share(total, n, k - 1) == q + if k - 1 < r { 1int } else { 0int });
    } else {
        assert(k * q == 0) by (nonlinear_arith)
            requires
                k == 0,
        ;
    }
}

/// A node budget is partitioned exactly: the slices' shares add up to the
/// whole budget, however indivisible it is.
pub proof fn lemma_node_slices_partition(total: int, n: int)
    requires
        0 <= total,
        1 <= n,
    ensures
        shares_sum(total, n, n) == total,
{
    lemma_shares_prefix(total, n, n);
    vstd::arithmetic::div_mod::lemma_fundamental_div_mod(total, n);
    assert(n * (total / n) == n * (total / n));
    vstd::arithmetic::div_mod::lemma_mod_bound(total, n);
}

/// The slices of a node budget are balanced, no two differing by more than
/// one simulation, and once the budget is at least one simulation per slice
/// no share is floored: the trees then run exactly the budget between them.
pub proof fn lemma_node_shares_balanced(total: int, n: int, i: int)
    requires
        0 <= total,
        1 <= n,
        0 <= i < n,
    ensures
        total / n <= node_share(total, n, i) <= total / n + 1,
        total >= n ==> node_share(total, n, i) >= 1,
{
    if total >= n {
        vstd::arithmetic::div_mod::lemma_div_is_ordered(n, total, n);
        vstd::arithmetic::div_mod::lemma_div_by_self(n);
    }
}

} // verus!
