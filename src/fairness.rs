//! Fairness of the round-robin and weighted policies.

use vstd::prelude::*;
use vstd::arithmetic::div_mod::{lemma_small_mod, lemma_mod_add_multiples_vanish};
use crate::load_balancer::{capacity_of, capacity_sum, weighted_walk};
use crate::types::NfProfile;

verus! {

/// The cursor a round-robin selection stores after reading `cur`: one
/// more, wrapping to zero only past `u64::MAX`.
pub open spec fn rr_advance(cur: u64) -> u64 {
    if cur < u64::MAX {
        (cur + 1) as u64
    } else {
        0
    }
}

/// The round-robin cursor of a type after `j` selections, starting from
/// cursor `c0`. Each selection takes the candidate at `cursor % n`.
pub open spec fn rr_cursor(c0: u64, j: nat) -> u64
    decreases j,
{
    if j == 0 {
        c0
    } else {
        rr_advance(rr_cursor(c0, (j - 1) as nat))
    }
}

/// How many of the first `m` selections among `n` candidates, from cursor
/// `c0`, take candidate `i`.
pub open spec fn rr_count(c0: u64, n: nat, m: nat, i: nat) -> nat
    decreases m,
{
    if m == 0 {
        0
    } else {
        rr_count(c0, n, (m - 1) as nat, i) + if (rr_cursor(c0, (m - 1) as nat) as int) % (n as int) == i {
            1nat
        } else {
            0nat
        }
    }
}

/// Selections counted by position in the cycle: `(c + j) % n` for `j < m`.
spec fn cycle_count(c: nat, n: nat, m: nat, i: nat) -> nat
    decreases m,
{
    if m == 0 {
        0
    } else {
        cycle_count(c, n, (m - 1) as nat, i) + if (c + m - 1) % (n as int) == i {
            1nat
        } else {
            0nat
        }
    }
}

proof fn lemma_cursor_value(c0: u64, j: nat)
    requires
        c0 + j <= u64::MAX,
    ensures
        rr_cursor(c0, j) == c0 + j,
    decreases j,
{
    if j > 0 {
        lemma_cursor_value(c0, (j - 1) as nat);
    }
}

proof fn lemma_counts_agree(c0: u64, n: nat, m: nat, i: nat)
    requires
        n > 0,
        c0 + m <= u64::MAX + 1,
    ensures
        rr_count(c0, n, m, i) == cycle_count(c0 as nat, n, m, i),
    decreases m,
{
    if m > 0 {
        lemma_counts_agree(c0, n, (m - 1) as nat, i);
        lemma_cursor_value(c0, (m - 1) as nat);
    }
}

proof fn lemma_cycle_split(c: nat, n: nat, m: nat, t: nat, i: nat)
    ensures
        cycle_count(c, n, m + t, i) == cycle_count(c, n, m, i) + cycle_count(c + m, n, t, i),
    decreases t,
{
    if t > 0 {
        lemma_cycle_split(c, n, m, (t - 1) as nat, i);
        assert((m + t - 1) as nat == m + (t - 1));
    }
}

proof fn lemma_cycle_from_zero(n: nat, m: nat, i: nat)
    requires
        m <= n,
        i < n,
    ensures
        cycle_count(0, n, m, i) == if i < m {
            1nat
        } else {
            0nat
        },
    decreases m,
{
    if m > 0 {
        lemma_cycle_from_zero(n, (m - 1) as nat, i);
        lemma_small_mod((m - 1) as nat, n);
    }
}

proof fn lemma_one_full_cycle(c: nat, n: nat, i: nat)
    requires
        i < n,
    ensures
        cycle_count(c, n, n, i) == 1,
    decreases c,
{
    if c == 0 {
        lemma_cycle_from_zero(n, n, i);
    } else {
        let p = (c - 1) as nat;
        lemma_one_full_cycle(p, n, i);
        lemma_cycle_split(p, n, 1, n, i);
        lemma_cycle_split(p, n, n, 1, i);
        lemma_mod_add_multiples_vanish(p as int, n as int);
        assert(cycle_count(p, n, 0, i) == 0);
        assert(cycle_count(p + n, n, 0, i) == 0);
        assert(cycle_count(p, n, 1, i) == if (p as int) % (n as int) == i { 1nat } else { 0nat });
        assert(cycle_count(p + n, n, 1, i) == if ((p + n) as int) % (n as int) == i { 1nat } else { 0nat });
        assert(((p + n) as int) % (n as int) == (p as int) % (n as int));
        assert(cycle_count(p, n, 1 + n, i) == cycle_count(p, n, n + 1, i));
    }
}

/// Round-robin fairness: from cursor `c0`, `k * n` consecutive selections
/// among the same `n` candidates take each candidate exactly `k` times, so
/// long as the cursor does not pass `u64::MAX` on the way.
pub proof fn lemma_round_robin_fair(c0: u64, n: nat, k: nat, i: nat)
    requires
        i < n,
        c0 + k * n <= u64::MAX + 1,
    ensures
        rr_count(c0, n, k * n, i) == k,
{
    lemma_counts_agree(c0, n, k * n, i);
    lemma_cycle_fair(c0 as nat, n, k, i);
}

proof fn lemma_cycle_fair(c0: nat, n: nat, k: nat, i: nat)
    requires
        i < n,
    ensures
        cycle_count(c0, n, k * n, i) == k,
    decreases k,
{
    if k > 0 {
        let k1 = (k - 1) as nat;
        lemma_cycle_fair(c0, n, k1, i);
        assert(k * n == k1 * n + n) by (nonlinear_arith)
            requires k1 + 1 == k;
        lemma_cycle_split(c0, n, k1 * n, n, i);
        lemma_one_full_cycle(c0 + k1 * n, n, i);
        assert(cycle_count(c0, n, k1 * n + n, i) == k1 + 1);
    } else {
        assert(k * n == 0) by (nonlinear_arith)
            requires k == 0;
    }
}

proof fn lemma_capacity_sum_monotonic(inst: Seq<NfProfile>, c: Seq<int>, a: int, b: int)
    requires
        0 <= a <= b,
    ensures
        capacity_sum(inst, c, a) <= capacity_sum(inst, c, b),
    decreases b - a,
{
    if a < b {
        lemma_capacity_sum_monotonic(inst, c, a, b - 1);
    }
}

proof fn lemma_walk_lands(inst: Seq<NfProfile>, c: Seq<int>, d: int, j: int)
    requires
        0 <= j < c.len(),
        capacity_sum(inst, c, j) <= d < capacity_sum(inst, c, c.len() as int),
    ensures
        j <= weighted_walk(inst, c, d - capacity_sum(inst, c, j), j) < c.len(),
        capacity_sum(inst, c, weighted_walk(inst, c, d - capacity_sum(inst, c, j), j)) <= d,
        d < capacity_sum(inst, c, weighted_walk(inst, c, d - capacity_sum(inst, c, j), j) + 1),
    decreases c.len() - j,
{
    let rest = d - capacity_sum(inst, c, j);
    if rest >= capacity_of(inst[c[j]]) {
        assert(capacity_sum(inst, c, j + 1) == capacity_sum(inst, c, j) + capacity_of(inst[c[j]]));
        if j + 1 == c.len() {
            assert(false);
        }
        lemma_walk_lands(inst, c, d, j + 1);
        assert(rest - capacity_of(inst[c[j]]) == d - capacity_sum(inst, c, j + 1));
    }
}

/// Weighted fairness: a draw `d` below the total capacity picks candidate
/// `t` exactly when it falls in `t`'s share of the range, which is as wide
/// as `t`'s capacity. A uniform draw therefore picks each candidate with
/// probability capacity over total.
pub proof fn lemma_weighted_share(inst: Seq<NfProfile>, c: Seq<int>, d: int, t: int)
    requires
        0 <= d < capacity_sum(inst, c, c.len() as int),
        0 <= t < c.len(),
    ensures
        weighted_walk(inst, c, d, 0) == t <==> capacity_sum(inst, c, t) <= d < capacity_sum(inst, c, t + 1),
        capacity_sum(inst, c, t + 1) - capacity_sum(inst, c, t) == capacity_of(inst[c[t]]),
{
    assert(c.len() > 0);
    lemma_walk_lands(inst, c, d, 0);
    let w = weighted_walk(inst, c, d, 0);
    if t < w {
        lemma_capacity_sum_monotonic(inst, c, t + 1, w);
    } else if t > w {
        lemma_capacity_sum_monotonic(inst, c, w + 1, t);
    }
}

} // verus!
