//! Floyd's cycle detection on a map of a finite range into itself: the
//! tortoise, moving one step at a time, and the hare, moving two, meet within
//! as many steps as the range has values.

use vstd::prelude::*;
use vstd::set_lib::{lemma_int_range, lemma_len_subset, set_int_range};

verus! {

/// `f` applied `n` times to `s`.
pub open spec fn iterate(f: spec_fn(int) -> int, n: nat, s: int) -> int
    decreases n,
{
    if n == 0 {
        s
    } else {
        f(iterate(f, (n - 1) as nat, s))
    }
}

/// `f` maps the residues below `m` to residues below `m`.
pub open spec fn maps_into(f: spec_fn(int) -> int, m: int) -> bool {
    forall|v: int| 0 <= v < m ==> 0 <= #[trigger] f(v) < m
}

/// Tortoise and hare stand on the same value after `j` steps.
pub open spec fn meets(f: spec_fn(int) -> int, s: int, j: nat) -> bool {
    iterate(f, j, s) == iterate(f, 2 * j, s)
}

/// Every iterate of a residue stays a residue.
pub proof fn lemma_iterate_in_range(f: spec_fn(int) -> int, m: int, s: int, n: nat)
    requires
        maps_into(f, m),
        0 <= s < m,
    ensures
        0 <= iterate(f, n, s) < m,
    decreases n,
{
    if n > 0 {
        lemma_iterate_in_range(f, m, s, (n - 1) as nat);
    }
}

/// Among the first `m + 1` iterates two are equal.
proof fn lemma_two_iterates_agree(f: spec_fn(int) -> int, m: int, s: int) -> (r: (nat, nat))
    requires
        maps_into(f, m),
        0 <= s < m,
    ensures
        r.0 < r.1 <= m,
        iterate(f, r.0, s) == iterate(f, r.1, s),
{
    let orbit = Seq::new((m + 1) as nat, |k: int| iterate(f, k as nat, s));
    if orbit.no_duplicates() {
        orbit.unique_seq_to_set();
        lemma_int_range(0, m);
        assert(orbit.to_set().subset_of(set_int_range(0, m))) by {
            assert forall|v: int| orbit.to_set().contains(v) implies set_int_range(0, m).contains(
                v,
            ) by {
                let k = choose|k: int| 0 <= k < orbit.len() && orbit[k] == v;
                lemma_iterate_in_range(f, m, s, k as nat);
            }
        }
        lemma_len_subset(orbit.to_set(), set_int_range(0, m));
        assert(false);
    }
    let (i, j) = choose|i: int, j: int|
        0 <= i < orbit.len() && 0 <= j < orbit.len() && i != j && orbit[i] == orbit[j];
    if i < j {
        (i as nat, j as nat)
    } else {
        (j as nat, i as nat)
    }
}

/// Once two iterates agree, the walk repeats with their distance as period.
proof fn lemma_period(f: spec_fn(int) -> int, s: int, first: nat, period: nat, k: nat, c: nat)
    requires
        iterate(f, first, s) == iterate(f, first + period, s),
        k >= first,
    ensures
        iterate(f, k + c * period, s) == iterate(f, k, s),
    decreases c, k,
{
    if c == 0 {
        assert(k + c * period == k) by (nonlinear_arith)
            requires
                c == 0,
        ;
    } else if c == 1 {
        assert(k + c * period == k + period) by (nonlinear_arith)
            requires
                c == 1,
        ;
        if k > first {
            lemma_period(f, s, first, period, (k - 1) as nat, 1);
            assert((k - 1) as nat + 1 * period == k - 1 + period);
            assert(iterate(f, (k + period) as nat, s) == f(
                iterate(f, (k + period - 1) as nat, s),
            ));
        }
    } else {
        lemma_period(f, s, first, period, k, (c - 1) as nat);
        assert(k + c * period == (k + (c - 1) * period) + 1 * period) by (nonlinear_arith)
            requires
                c >= 1,
        ;
        assert((c - 1) * period >= 0) by (nonlinear_arith)
            requires
                c >= 1,
                period >= 0,
        ;
        lemma_period(f, s, first, period, (k + (c - 1) * period) as nat, 1);
    }
}

/// Floyd's theorem: on a map of `m` residues into themselves the tortoise and
/// the hare meet after at least one and at most `m` steps.
pub proof fn lemma_tortoise_meets_hare(f: spec_fn(int) -> int, m: int, s: int) -> (j: nat)
    requires
        maps_into(f, m),
        0 <= s < m,
    ensures
        1 <= j <= m,
        meets(f, s, j),
{
    let (first, second) = lemma_two_iterates_agree(f, m, s);
    let period = (second - first) as nat;
    let rounds: nat = if first == 0 {
        1
    } else {
        ((first + period - 1) / (period as int)) as nat
    };
    let j = rounds * period;
    assert(1 <= j <= m && j >= first && 2 * j == j + rounds * period) by (nonlinear_arith)
        requires
            j == rounds * period,
            period >= 1,
            first + period <= m,
            first == 0 ==> rounds == 1,
            first > 0 ==> rounds == (first + period - 1) / (period as int),
    ;
    lemma_period(f, s, first, period, j, rounds);
    j
}

} // verus!
