//! Reduction of a merged sample set to summary statistics.
//!
//! Samples are per-request latencies in microseconds.  Statistics are
//! computed over the sorted sample set: the mean is the exact integer sum
//! together with the count, and the percentiles follow the nearest-rank
//! method with a ceiling-based rank (`ceil(m * num / den) - 1`).

use vstd::prelude::*;

verus! {

/// A sequence is sorted by value, ascending.
pub open spec fn sorted(s: Seq<u64>) -> bool {
    forall|i: int, j: int| 0 <= i <= j < s.len() ==> s[i] <= s[j]
}

/// The sum of all samples, as an unbounded integer.
pub open spec fn sum_of(s: Seq<u64>) -> int
    decreases s.len(),
{
    if s.len() == 0 {
        0
    } else {
        sum_of(s.drop_last()) + s.last()
    }
}

/// The zero-based index selected by the nearest-rank method for the
/// percentile `num / den` over `m` sorted samples: `ceil(m * num / den) - 1`,
/// clamped to the valid range `[0, m - 1]`.
pub open spec fn rank_index(m: nat, num: nat, den: nat) -> int
    recommends
        m >= 1,
        den >= 1,
{
    let rank = (m * num + den - 1) / (den as int);
    if rank < 1 {
        0
    } else if rank > m {
        m as int - 1
    } else {
        rank - 1
    }
}

/// Computes the nearest-rank index for the percentile `num / den` over `m`
/// sorted samples.  For `1 <= num <= den` the ceiling-based rank is already
/// in range, so the clamp never moves it: the result is exactly
/// `ceil(m * num / den) - 1`, and always a valid index.
pub fn nearest_rank_index(m: usize, num: usize, den: usize) -> (i: usize)
    requires
        m >= 1,
        1 <= num <= den,
    ensures
        i == rank_index(m as nat, num as nat, den as nat),
        i + 1 == (m * num + den - 1) / (den as int),
        i < m,
{
    proof {
        let mi = m as int;
        let numi = num as int;
        let deni = den as int;
        assert(mi * numi >= 1 * 1) by (nonlinear_arith)
            requires mi >= 1 && numi >= 1;
        assert(mi * numi <= mi * deni) by (nonlinear_arith)
            requires mi >= 0 && numi <= deni;
        // ceil(m*num/den) = (m*num + den - 1) / den lies in [1, m].
        assert((mi * numi + deni - 1) / deni >= 1) by (nonlinear_arith)
            requires mi * numi >= 1 && deni >= 1;
        assert((mi * numi + deni - 1) / deni <= mi) by (nonlinear_arith)
            requires mi * numi <= mi * deni && deni >= 1;
        assert(mi <= u64::MAX as int);
        assert(numi <= u64::MAX as int);
        assert(mi * numi <= (u64::MAX as int) * (u64::MAX as int)) by (nonlinear_arith)
            requires 0 <= mi <= u64::MAX as int && 0 <= numi <= u64::MAX as int;
    }
    let m_wide: u128 = m as u128;
    let num_wide: u128 = num as u128;
    let den_wide: u128 = den as u128;
    let rank: u128 = (m_wide * num_wide + den_wide - 1) / den_wide;
    (rank - 1) as usize
}

/// Sums all samples into a 128-bit total, which cannot overflow: the sum of
/// at most `usize::MAX` values each at most `u64::MAX` fits in a `u128`.
pub fn sum_samples(samples: &Vec<u64>) -> (total: u128)
    ensures
        total == sum_of(samples@),
{
    let max64: u128 = u64::MAX as u128;
    let mut total: u128 = 0;
    let mut i: usize = 0;
    proof {
        assert(samples@.subrange(0, 0) =~= Seq::<u64>::empty());
    }
    while i < samples.len()
        invariant
            i <= samples@.len(),
            max64 == u64::MAX,
            total == sum_of(samples@.subrange(0, i as int)),
            total <= (i as int) * (u64::MAX as int),
        decreases samples@.len() - i,
    {
        proof {
            let ii = i as int;
            let n = samples@.len() as int;
            assert(samples@.subrange(0, ii + 1).drop_last() =~= samples@.subrange(0, ii));
            assert((ii + 1) * (u64::MAX as int) <= n * (u64::MAX as int)) by (nonlinear_arith)
                requires 0 <= ii + 1 <= n;
            assert(n * (u64::MAX as int) <= (u64::MAX as int) * (u64::MAX as int))
                by (nonlinear_arith)
                requires 0 <= n <= u64::MAX as int;
            assert(total + samples@[ii] <= (ii + 1) * (u64::MAX as int)) by (nonlinear_arith)
                requires total <= ii * (u64::MAX as int) && samples@[ii] <= u64::MAX as int;
        }
        total = total + samples[i] as u128;
        i = i + 1;
    }
    proof {
        assert(samples@.subrange(0, samples@.len() as int) =~= samples@);
    }
    total
}

/// The ascending reordering of a sample set: the unique sequence that is
/// sorted and holds the same multiset of samples.  `lemma_sorted_of` shows
/// that such a sequence exists; `lemma_sorted_same_multiset_equal` shows
/// that it is unique.
pub open spec fn sorted_of(s: Seq<u64>) -> Seq<u64> {
    choose|t: Seq<u64>| sorted(t) && t.to_multiset() == s.to_multiset()
}

/// `sorted_of(s)` really is sorted and really is a reordering of `s`.
pub proof fn lemma_sorted_of(s: Seq<u64>)
    ensures
        sorted(sorted_of(s)),
        sorted_of(s).to_multiset() == s.to_multiset(),
        sorted_of(s).len() == s.len(),
{
    broadcast use vstd::seq_lib::group_to_multiset_ensures;

    let leq = |x: u64, y: u64| x <= y;
    let t = s.sort_by(leq);
    assert(vstd::relations::total_ordering(leq));
    s.lemma_sort_by_ensures(leq);
    assert(sorted(t)) by {
        assert forall|i: int, j: int| 0 <= i <= j < t.len() implies t[i] <= t[j] by {
            if i < j {
                assert(leq(t[i], t[j]));
            }
        }
    }
    assert(t.to_multiset() == s.to_multiset());
    assert(sorted(sorted_of(s)) && sorted_of(s).to_multiset() == s.to_multiset());
    let r = sorted_of(s);
    assert(r.len() == r.to_multiset().len());
    assert(s.len() == s.to_multiset().len());
}

/// Sorting is deterministic, and already-sorted input is a fixed point:
/// two sorted sequences holding the same multiset of samples are equal, so
/// any sorting of a pre-sorted sequence leaves it unchanged (and the
/// nearest-rank indices, which depend only on the length, stay the same).
pub proof fn lemma_sorted_same_multiset_equal(a: Seq<u64>, b: Seq<u64>)
    requires
        sorted(a),
        sorted(b),
        a.to_multiset() == b.to_multiset(),
    ensures
        a == b,
    decreases a.len(),
{
    broadcast use vstd::seq_lib::group_to_multiset_ensures;

    if a.len() == 0 {
        assert(b.to_multiset().len() == 0);
        assert(a =~= b);
    } else {
        assert(a.to_multiset().len() == a.len());
        assert(b.len() == a.len());
        assert(a.contains(a[0])) by {
            assert(0 <= 0 < a.len() && a[0] == a[0]);
        }
        assert(b.to_multiset().count(a[0]) > 0);
        assert(b.contains(a[0]));
        let ka = choose|k: int| 0 <= k < b.len() && b[k] == a[0];
        assert(b[0] <= b[ka]);
        assert(b.contains(b[0])) by {
            assert(0 <= 0 < b.len() && b[0] == b[0]);
        }
        assert(a.to_multiset().count(b[0]) > 0);
        assert(a.contains(b[0]));
        let kb = choose|k: int| 0 <= k < a.len() && a[k] == b[0];
        assert(a[0] <= a[kb]);
        assert(a[0] == b[0]);
        let at = a.drop_first();
        let bt = b.drop_first();
        assert(at =~= a.remove(0));
        assert(bt =~= b.remove(0));
        assert(at.to_multiset() == a.to_multiset().remove(a[0]));
        assert(bt.to_multiset() == b.to_multiset().remove(b[0]));
        assert(sorted(at)) by {
            assert forall|i: int, j: int| 0 <= i <= j < at.len() implies at[i] <= at[j] by {
                assert(at[i] == a[i + 1] && at[j] == a[j + 1]);
            }
        }
        assert(sorted(bt)) by {
            assert forall|i: int, j: int| 0 <= i <= j < bt.len() implies bt[i] <= bt[j] by {
                assert(bt[i] == b[i + 1] && bt[j] == b[j + 1]);
            }
        }
        lemma_sorted_same_multiset_equal(at, bt);
        assert(a =~= b) by {
            assert(forall|i: int| 1 <= i < a.len() ==> a[i] == at[i - 1] && b[i] == bt[i - 1]);
        }
    }
}

/// Sorts the samples in place, ascending.  The result is exactly the
/// canonical ascending reordering of the input: no sample is lost,
/// duplicated or changed.
pub fn sort_samples(samples: &mut Vec<u64>)
    ensures
        final(samples)@ == sorted_of(old(samples)@),
        sorted(final(samples)@),
        final(samples)@.to_multiset() == old(samples)@.to_multiset(),
        final(samples)@.len() == old(samples)@.len(),
{
    broadcast use vstd::seq_lib::group_to_multiset_ensures;

    let ghost orig = samples@;
    let mut i: usize = 1;
    while i < samples.len()
        invariant
            1 <= i,
            i <= samples@.len() || samples@.len() <= 1,
            samples@.len() == orig.len(),
            samples@.to_multiset() == orig.to_multiset(),
            sorted(samples@.subrange(0, if i <= samples@.len() { i as int } else { samples@.len() as int })),
        decreases samples@.len() - i,
    {
        let x: u64 = samples[i];
        let mut p: usize = 0;
        while p < i && samples[p] <= x
            invariant
                0 <= p <= i,
                i < samples@.len(),
                x == samples@[i as int],
                forall|q: int| 0 <= q < p ==> samples@[q] <= x,
            decreases i - p,
        {
            p = p + 1;
        }
        let ghost pre = samples@;
        let removed: u64 = samples.remove(i);
        samples.insert(p, removed);
        proof {
            broadcast use vstd::seq_lib::group_to_multiset_ensures;
            broadcast use vstd::multiset::group_multiset_axioms;

            let ii = i as int;
            let pp = p as int;
            let cur = samples@;
            assert(removed == pre[ii]);
            assert(cur == pre.remove(ii).insert(pp, removed));
            assert(pre.remove(ii).to_multiset() == pre.to_multiset().remove(removed));
            assert(cur.to_multiset() == pre.to_multiset().remove(removed).insert(removed));
            assert(pre.contains(removed)) by {
                assert(0 <= ii < pre.len() && pre[ii] == removed);
            }
            assert(pre.to_multiset().count(removed) > 0);
            assert(cur.to_multiset() =~= pre.to_multiset());
            // the first i+1 places are now sorted
            assert(forall|q: int| 0 <= q < pp ==> cur[q] == pre[q]);
            assert(cur[pp] == removed);
            assert(forall|q: int| pp < q <= ii ==> cur[q] == pre[q - 1]);
            assert(pp < ii ==> removed < pre[pp]);
            assert(sorted(cur.subrange(0, ii + 1))) by {
                let sub = cur.subrange(0, ii + 1);
                assert forall|a: int, b: int| 0 <= a <= b < sub.len() implies sub[a] <= sub[b] by {
                    assert(sub[a] == cur[a] && sub[b] == cur[b]);
                    let presub = pre.subrange(0, ii);
                    assert(sorted(presub));
                    assert(forall|q1: int, q2: int|
                        0 <= q1 <= q2 < ii ==> pre[q1] == presub[q1] && pre[q2] == presub[q2]);
                }
            }
        }
        i = i + 1;
    }
    proof {
        assert(samples@.subrange(0, samples@.len() as int) =~= samples@);
        assert(sorted(samples@));
        lemma_sorted_of(orig);
        lemma_sorted_same_multiset_equal(samples@, sorted_of(orig));
    }
}

/// Nearest-rank indices are monotone in the percentile: when
/// `num1 / den1 <= num2 / den2` (both at most one), the lower percentile
/// never selects a later index, and both indices are valid.
pub proof fn lemma_rank_index_monotone(m: nat, num1: nat, den1: nat, num2: nat, den2: nat)
    requires
        m >= 1,
        1 <= num1 <= den1,
        1 <= num2 <= den2,
        num1 * den2 <= num2 * den1,
    ensures
        0 <= rank_index(m, num1, den1) <= rank_index(m, num2, den2) < m,
{
    let mi = m as int;
    let n1 = num1 as int;
    let d1 = den1 as int;
    let n2 = num2 as int;
    let d2 = den2 as int;
    let x1 = mi * n1 + d1 - 1;
    let x2 = mi * n2 + d2 - 1;
    let r1 = x1 / d1;
    let r2 = x2 / d2;
    // both ceiling-based ranks lie in [1, m], so neither clamp moves them
    assert(mi * n1 >= 1 * 1) by (nonlinear_arith)
        requires mi >= 1 && n1 >= 1;
    assert(mi * n2 >= 1 * 1) by (nonlinear_arith)
        requires mi >= 1 && n2 >= 1;
    assert(mi * n1 <= mi * d1) by (nonlinear_arith)
        requires mi >= 0 && n1 <= d1;
    assert(mi * n2 <= mi * d2) by (nonlinear_arith)
        requires mi >= 0 && n2 <= d2;
    assert((mi * n1 + d1 - 1) / d1 >= 1) by (nonlinear_arith)
        requires mi * n1 >= 1 && d1 >= 1;
    assert((mi * n2 + d2 - 1) / d2 >= 1) by (nonlinear_arith)
        requires mi * n2 >= 1 && d2 >= 1;
    assert((mi * n1 + d1 - 1) / d1 <= mi) by (nonlinear_arith)
        requires mi * n1 <= mi * d1 && d1 >= 1;
    assert((mi * n2 + d2 - 1) / d2 <= mi) by (nonlinear_arith)
        requires mi * n2 <= mi * d2 && d2 >= 1;
    // the higher percentile's rank covers at least m * num2 / den2 samples
    vstd::arithmetic::div_mod::lemma_fundamental_div_mod(x2, d2);
    assert(x2 == d2 * r2 + x2 % d2);
    assert(0 <= x2 % d2 < d2);
    assert(d2 * r2 >= mi * n2);
    // so it also covers at least m * num1 / den1 samples: m * n1 <= r2 * d1
    assert(mi * n1 * d2 <= mi * n2 * d1) by (nonlinear_arith)
        requires n1 * d2 <= n2 * d1 && mi >= 0;
    assert(mi * n2 * d1 <= (d2 * r2) * d1) by (nonlinear_arith)
        requires mi * n2 <= d2 * r2 && d1 >= 0;
    assert(mi * n1 <= r2 * d1) by (nonlinear_arith)
        requires mi * n1 * d2 <= (d2 * r2) * d1 && d2 >= 1;
    // hence the lower percentile's ceiling-based rank is no larger
    vstd::arithmetic::div_mod::lemma_div_is_ordered(x1, r2 * d1 + d1 - 1, d1);
    vstd::arithmetic::div_mod::lemma_fundamental_div_mod_converse(
        r2 * d1 + d1 - 1,
        d1,
        r2,
        d1 - 1,
    );
    assert(r1 <= r2);
}

/// Over any sorted, non-empty sample set the nearest-rank percentiles are
/// ordered and in range: the p99 sample never exceeds the p99.9 sample,
/// which never exceeds the last (that is, the maximum) sample.
pub proof fn lemma_percentiles_ordered(s: Seq<u64>)
    requires
        sorted(s),
        s.len() >= 1,
    ensures
        0 <= rank_index(s.len(), 99, 100) <= rank_index(s.len(), 999, 1000) < s.len(),
        s[rank_index(s.len(), 99, 100)] <= s[rank_index(s.len(), 999, 1000)],
        s[rank_index(s.len(), 999, 1000)] <= s[s.len() - 1],
{
    lemma_rank_index_monotone(s.len(), 99, 100, 999, 1000);
}

/// The last sorted sample is a true maximum: every sample of the set is at
/// most the value at the final sorted index (the 100th percentile).
pub proof fn lemma_last_is_max(s: Seq<u64>)
    requires
        s.len() >= 1,
    ensures
        forall|i: int| 0 <= i < s.len() ==> s[i] <= sorted_of(s)[sorted_of(s).len() - 1],
{
    broadcast use vstd::seq_lib::group_to_multiset_ensures;

    lemma_sorted_of(s);
    let t = sorted_of(s);
    assert forall|i: int| 0 <= i < s.len() implies s[i] <= t[t.len() - 1] by {
        assert(s.contains(s[i])) by {
            assert(0 <= i < s.len() && s[i] == s[i]);
        }
        assert(s.to_multiset().count(s[i]) > 0);
        assert(t.to_multiset().count(s[i]) > 0);
        assert(t.contains(s[i]));
        let k = choose|k: int| 0 <= k < t.len() && t[k] == s[i];
        assert(t[k] <= t[t.len() - 1]);
    }
}

/// A constant sample set sums exactly: if every sample equals `k`, the sum
/// is exactly `len * k`.
pub proof fn lemma_constant_sum(s: Seq<u64>, k: u64)
    requires
        forall|i: int| 0 <= i < s.len() ==> s[i] == k,
    ensures
        sum_of(s) == s.len() * k,
    decreases s.len(),
{
    if s.len() == 0 {
    } else {
        lemma_constant_sum(s.drop_last(), k);
        assert(sum_of(s) == (s.len() - 1) * k + k);
        assert((s.len() - 1) * (k as int) + k == s.len() * k) by (nonlinear_arith);
    }
}

/// The mean of a constant sample set is exact: when every sample equals
/// `k`, the sum divides evenly and the mean is `k` with no remainder.
pub proof fn lemma_constant_mean(s: Seq<u64>, k: u64)
    requires
        s.len() >= 1,
        forall|i: int| 0 <= i < s.len() ==> s[i] == k,
    ensures
        sum_of(s) / (s.len() as int) == k,
        sum_of(s) % (s.len() as int) == 0,
{
    lemma_constant_sum(s, k);
    let n = s.len() as int;
    assert(n * k == (k as int) * n) by (nonlinear_arith);
    vstd::arithmetic::div_mod::lemma_fundamental_div_mod_converse(n * k, n, k as int, 0);
}

/// The summary statistics of one complete run, over latencies in
/// microseconds.  The mean is kept exact, as the total and the count;
/// callers divide (and convert units) when they display it.
#[derive(Clone, Copy, PartialEq, Eq, Structural, Debug)]
pub struct Summary {
    /// How many samples were reduced.
    pub count: usize,
    /// The exact sum of all samples, in microseconds.
    pub total_micros: u128,
    /// The sample at the nearest-rank 99th percentile.
    pub p99_micros: u64,
    /// The sample at the nearest-rank 99.9th percentile.
    pub p999_micros: u64,
    /// The largest sample.
    pub max_micros: u64,
}

impl Summary {
    /// The mean latency as an exact integer division: whole microseconds,
    /// rounded down, together with the remainder.
    pub fn mean_micros(&self) -> (m: (u128, u128))
        requires
            self.count >= 1,
        ensures
            m.0 == self.total_micros as int / self.count as int,
            m.1 == self.total_micros as int % self.count as int,
    {
        (self.total_micros / (self.count as u128), self.total_micros % (self.count as u128))
    }
}

/// Reduces a non-empty sample set to its summary statistics: sorts the
/// samples ascending, then selects the nearest-rank p99 and p99.9 samples
/// and the maximum, and records the exact sum and count for the mean.
pub fn reduce(samples: Vec<u64>) -> (s: Summary)
    requires
        samples@.len() >= 1,
    ensures
        s.count == samples@.len(),
        s.total_micros == sum_of(samples@),
        s.p99_micros == sorted_of(samples@)[rank_index(samples@.len(), 99, 100)],
        s.p999_micros == sorted_of(samples@)[rank_index(samples@.len(), 999, 1000)],
        s.max_micros == sorted_of(samples@)[samples@.len() - 1],
        s.p99_micros <= s.p999_micros <= s.max_micros,
        forall|i: int| 0 <= i < samples@.len() ==> samples@[i] <= s.max_micros,
{
    let count = samples.len();
    let total = sum_samples(&samples);
    let mut ordered = samples;
    sort_samples(&mut ordered);
    proof {
        lemma_percentiles_ordered(ordered@);
        lemma_last_is_max(samples@);
    }
    let i99 = nearest_rank_index(count, 99, 100);
    let i999 = nearest_rank_index(count, 999, 1000);
    Summary {
        count,
        total_micros: total,
        p99_micros: ordered[i99],
        p999_micros: ordered[i999],
        max_micros: ordered[count - 1],
    }
}

} // verus!
