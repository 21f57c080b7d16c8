//! Order statistics for the aggregated metrics: sorting, quartiles and
//! boxplot outliers.
//!
//! Quartiles use linear interpolation between order statistics (the R-7
//! convention): at rank `m * (n - 1) / 4` the value is
//! `lo + (hi - lo) * frac`. To stay exact in integers, quartiles are
//! returned scaled by four and fences scaled by eight.

use vstd::prelude::*;
use vstd::seq_lib::lemma_multiset_commutative;
use vstd::seq_lib::lemma_sorted_unique;
use vstd::relations::total_ordering;
use vstd::multiset::Multiset;

verus! {

/// Non-decreasing order on `u64`.
pub open spec fn u64_leq() -> spec_fn(u64, u64) -> bool {
    |a: u64, b: u64| a <= b
}

/// The unique non-decreasing reordering of `s`.
pub open spec fn sorted_of(s: Seq<u64>) -> Seq<u64> {
    s.sort_by(u64_leq())
}

/// `s` is in non-decreasing order.
pub open spec fn sorted_u64(s: Seq<u64>) -> bool {
    forall|i: int, j: int| 0 <= i < j < s.len() ==> s[i] <= s[j]
}

proof fn lemma_u64_leq_total()
    ensures
        total_ordering(u64_leq()),
{
    let leq = u64_leq();
    assert(vstd::relations::reflexive(leq)) by {
        assert(forall|a: u64| #[trigger] leq(a, a));
    }
    assert(vstd::relations::antisymmetric(leq)) by {
        assert(forall|a: u64, b: u64| #[trigger] leq(a, b) && #[trigger] leq(b, a) ==> a == b);
    }
    assert(vstd::relations::transitive(leq)) by {
        assert(forall|a: u64, b: u64, c: u64| #[trigger] leq(a, b) && #[trigger] leq(b, c)
            ==> leq(a, c));
    }
    assert(vstd::relations::strongly_connected(leq)) by {
        assert(forall|a: u64, b: u64| #[trigger] leq(a, b) || #[trigger] leq(b, a));
    }
}

/// Sorts the values into non-decreasing order by insertion sort.
pub fn sort_u64(v: &Vec<u64>) -> (r: Vec<u64>)
    ensures
        r@ == sorted_of(v@),
        sorted_u64(r@),
        r@.to_multiset() == v@.to_multiset(),
        r@.len() == v@.len(),
{
    let mut r: Vec<u64> = Vec::new();
    let n = v.len();
    proof {
        assert(v@.take(0) =~= Seq::<u64>::empty());
        Seq::<u64>::empty().to_multiset_ensures();
        v@.take(0).to_multiset_ensures();
        assert(r@.to_multiset() =~= v@.take(0).to_multiset());
    }
    for i in 0..n
        invariant
            n == v@.len(),
            sorted_u64(r@),
            r@.to_multiset() == v@.take(i as int).to_multiset(),
            r@.len() == i,
    {
        let x = v[i];
        let mut j = r.len();
        while j > 0 && r[j - 1] > x
            invariant
                0 <= j <= r@.len(),
                forall|k: int| j <= k < r@.len() ==> x < #[trigger] r@[k],
            decreases j,
        {
            j = j - 1;
        }
        let ghost old_r = r@;
        r.insert(j, x);
        proof {
            assert(r@ =~= old_r.take(j as int) + (seq![x] + old_r.skip(j as int)));
            assert(old_r =~= old_r.take(j as int) + old_r.skip(j as int));
            lemma_multiset_commutative(old_r.take(j as int), seq![x] + old_r.skip(j as int));
            lemma_multiset_commutative(seq![x], old_r.skip(j as int));
            lemma_multiset_commutative(old_r.take(j as int), old_r.skip(j as int));
            Seq::<u64>::empty().to_multiset_ensures();
            Seq::<u64>::empty().push(x).to_multiset_ensures();
            assert(seq![x] =~= Seq::<u64>::empty().push(x));
            assert(seq![x].to_multiset() =~= Multiset::<u64>::empty().insert(x)) by {
                broadcast use vstd::multiset::group_multiset_axioms;
            }
            assert(r@.to_multiset() =~= old_r.to_multiset().insert(x)) by {
                broadcast use vstd::multiset::group_multiset_axioms;
            }
            assert(v@.take(i + 1).drop_last() =~= v@.take(i as int));
            assert(v@.take(i + 1) =~= v@.take(i as int).push(x));
            v@.take(i as int).to_multiset_ensures();
            assert(v@.take(i + 1).to_multiset() =~= v@.take(i as int).to_multiset().insert(x));
            assert(sorted_u64(r@)) by {
                assert(forall|k: int| 0 <= k < j ==> #[trigger] old_r[k] <= x);
                assert(forall|i1: int, i2: int| 0 <= i1 < i2 < r@.len() ==> r@[i1] <= r@[i2]) by {
                    assert forall|i1: int, i2: int| 0 <= i1 < i2 < r@.len() implies r@[i1]
                        <= r@[i2] by {
                        if i2 < j {
                        } else if i1 > j {
                            assert(r@[i1] == old_r[i1 - 1] && r@[i2] == old_r[i2 - 1]);
                        } else if i1 == j {
                            assert(r@[i1] == x && r@[i2] == old_r[i2 - 1]);
                        } else if i2 == j {
                            assert(r@[i1] == old_r[i1] && r@[i2] == x);
                        } else {
                            assert(r@[i1] == old_r[i1] && r@[i2] == old_r[i2 - 1]);
                        }
                    }
                }
            }
        }
    }
    proof {
        assert(v@.take(n as int) =~= v@);
        lemma_u64_leq_total();
        v@.lemma_sort_by_ensures(u64_leq());
        assert(vstd::relations::sorted_by(r@, u64_leq())) by {
            assert(forall|i: int, j: int| 0 <= i < j < r@.len() ==> u64_leq()(r@[i], r@[j]));
        }
        lemma_sorted_unique(r@, sorted_of(v@), u64_leq());
    }
    r
}

/// The `m`-th quartile of a sorted sequence, scaled by four: linear
/// interpolation between the order statistics around rank
/// `m * (len - 1) / 4`.
pub open spec fn quartile_x4(s: Seq<u64>, m: int) -> int {
    let n = s.len() as int;
    if n == 1 {
        4 * s[0]
    } else {
        let rank4 = m * (n - 1);
        let k = rank4 / 4;
        let f = rank4 % 4;
        4 * s[k] + (s[k + 1] - s[k]) * f
    }
}

/// Computes a quartile (scaled by four) of sorted values.
pub fn quartile_scaled(sorted: &Vec<u64>, m: u8) -> (q: u128)
    requires
        sorted_u64(sorted@),
        sorted@.len() > 0,
        1 <= m <= 3,
    ensures
        q == quartile_x4(sorted@, m as int),
        q <= 4 * (u64::MAX as int),
{
    let n = sorted.len();
    if n == 1 {
        return 4 * (sorted[0] as u128);
    }
    proof {
        assert((m as int) * ((n - 1) as int) < u128::MAX) by (nonlinear_arith)
            requires 1 <= m <= 3, 2 <= n <= usize::MAX;
    }
    let rank4: u128 = (m as u128) * ((n - 1) as u128);
    proof {
        assert(rank4 == m * (n - 1)) by (nonlinear_arith)
            requires rank4 == (m as u128) * ((n - 1) as u128), 1 <= m <= 3, 2 <= n;
        vstd::arithmetic::div_mod::lemma_fundamental_div_mod(rank4 as int, 4);
        assert(4 * (rank4 as int / 4) <= rank4 < 4 * (n - 1)) by (nonlinear_arith)
            requires rank4 == m * (n - 1), 1 <= m <= 3, 2 <= n,
                rank4 == 4 * (rank4 as int / 4) + (rank4 as int % 4),
                0 <= rank4 as int % 4 < 4;
        assert(rank4 as int / 4 < n - 1) by (nonlinear_arith)
            requires 4 * (rank4 as int / 4) <= rank4 as int, rank4 < 4 * (n - 1);
    }
    let k = (rank4 / 4) as usize;
    let f = rank4 % 4;
    let lo = sorted[k];
    let hi = sorted[k + 1];
    assert(lo <= hi);
    proof {
        assert(((hi - lo) as int) * (f as int) <= 4 * ((hi - lo) as int)) by (nonlinear_arith)
            requires 0 <= f < 4, lo <= hi;
    }
    let q = 4 * (lo as u128) + ((hi - lo) as u128) * f;
    proof {
        assert(q == 4 * (lo as int) + ((hi - lo) as int) * (f as int));
    }
    q
}

/// The lower boxplot fence, scaled by eight: `q1 - 1.5 * (q3 - q1)` in
/// scaled integers.
pub open spec fn fence_low_x8(s: Seq<u64>) -> int {
    2 * quartile_x4(s, 1) - 3 * (quartile_x4(s, 3) - quartile_x4(s, 1))
}

/// The upper boxplot fence, scaled by eight: `q3 + 1.5 * (q3 - q1)` in
/// scaled integers.
pub open spec fn fence_high_x8(s: Seq<u64>) -> int {
    2 * quartile_x4(s, 3) + 3 * (quartile_x4(s, 3) - quartile_x4(s, 1))
}

/// A value outside the boxplot fences of its dataset.
pub open spec fn is_outlier(x: u64, sorted: Seq<u64>) -> bool {
    8 * x < fence_low_x8(sorted) || 8 * x > fence_high_x8(sorted)
}

/// The outliers of `values`, in input order, judged against the fences
/// of the sorted dataset.
pub open spec fn outliers_of(values: Seq<u64>, sorted: Seq<u64>) -> Seq<u64> {
    values.filter(|x: u64| is_outlier(x, sorted))
}

/// Collects the values outside the boxplot fences, in input order.
pub fn boxplot_outliers(values: &Vec<u64>) -> (outs: Vec<u64>)
    requires
        values@.len() > 0,
    ensures
        outs@ == outliers_of(values@, sorted_of(values@)),
{
    let sorted = sort_u64(values);
    let q1 = quartile_scaled(&sorted, 1);
    let q3 = quartile_scaled(&sorted, 3);
    let lf8: i128 = 2 * (q1 as i128) - 3 * ((q3 as i128) - (q1 as i128));
    let hf8: i128 = 2 * (q3 as i128) + 3 * ((q3 as i128) - (q1 as i128));
    proof {
        assert(lf8 == fence_low_x8(sorted_of(values@)));
        assert(hf8 == fence_high_x8(sorted_of(values@)));
    }
    let mut outs: Vec<u64> = Vec::new();
    let n = values.len();
    proof {
        reveal(Seq::filter);
        assert(values@.take(0) =~= Seq::<u64>::empty());
        assert(outs@ =~= outliers_of(values@.take(0), sorted_of(values@)));
    }
    for i in 0..n
        invariant
            n == values@.len(),
            lf8 == fence_low_x8(sorted_of(values@)),
            hf8 == fence_high_x8(sorted_of(values@)),
            outs@ =~= outliers_of(values@.take(i as int), sorted_of(values@)),
    {
        let x = values[i];
        if 8 * (x as i128) < lf8 || 8 * (x as i128) > hf8 {
            outs.push(x);
        }
        proof {
            reveal(Seq::filter);
            assert(values@.take(i + 1).drop_last() =~= values@.take(i as int));
            assert(values@.take(i + 1).last() == values@[i as int]);
            assert(outs@ =~= outliers_of(values@.take(i + 1), sorted_of(values@)));
        }
    }
    assert(values@.take(n as int) =~= values@);
    outs
}

} // verus!
