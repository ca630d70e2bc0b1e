//! Order statistics over latencies, held exactly: a quantile at a fractional
//! rank is interpolated linearly, and is scaled by four so that it stays a
//! whole number.
use vstd::prelude::*;
use vstd::relations::{sorted_by, total_ordering};

verus! {

broadcast use vstd::seq_lib::group_to_multiset_ensures;

/// The ascending order on latencies.
pub open spec fn ascending() -> spec_fn(u128, u128) -> bool {
    |a: u128, b: u128| a <= b
}

/// `s` in ascending order.
pub open spec fn sorted_values(s: Seq<u128>) -> Seq<u128> {
    s.sort_by(ascending())
}

/// The arithmetic sum of `s`.
pub open spec fn sum_of(s: Seq<u128>) -> int
    decreases s.len(),
{
    if s.len() == 0 {
        0
    } else {
        sum_of(s.drop_last()) + s.last() as int
    }
}

/// Four times the value at rank `k * (n - 1) / 4` of the ascending sequence
/// `sorted` of length `n`, interpolated linearly between the two nearest
/// ranks. With `k` of 1, 2 and 3 this is the lower quartile, the median and
/// the upper quartile.
pub open spec fn quartile_x4(sorted: Seq<u128>, k: int) -> int {
    let pos = k * (sorted.len() - 1);
    let f = pos / 4;
    let r = pos % 4;
    if r == 0 {
        4 * sorted[f]
    } else {
        (4 - r) * sorted[f] + r * sorted[f + 1]
    }
}

/// The quartile `k` of `s`, times four: see `quartile_x4`.
pub open spec fn statistic_x4(s: Seq<u128>, k: int) -> int {
    quartile_x4(sorted_values(s), k)
}

pub proof fn lemma_ascending_total()
    ensures
        total_ordering(ascending()),
{
}

/// Relies on `slice::sort_unstable`: the slice comes back in ascending order,
/// holding the same values as before.
#[verifier::external_body]
fn sort_unstable(v: &mut Vec<u128>)
    ensures
        sorted_by(final(v)@, ascending()),
        final(v)@.to_multiset() == old(v)@.to_multiset(),
{
    v.sort_unstable()
}

/// Sorts `v` into ascending order.
pub fn sort_ascending(v: &mut Vec<u128>)
    ensures
        final(v)@ == sorted_values(old(v)@),
        final(v)@.len() == old(v)@.len(),
{
    let ghost before = v@;
    sort_unstable(v);
    proof {
        lemma_ascending_total();
        before.lemma_sort_by_ensures(ascending());
        vstd::seq_lib::lemma_sorted_unique(v@, sorted_values(before), ascending());
        vstd::seq_lib::to_multiset_len(v@);
        vstd::seq_lib::to_multiset_len(before);
    }
}

pub proof fn lemma_value_at_most_sum(s: Seq<u128>, i: int)
    requires
        0 <= i < s.len(),
    ensures
        s[i] <= sum_of(s),
    decreases s.len(),
{
    if i < s.len() - 1 {
        lemma_value_at_most_sum(s.drop_last(), i);
    }
    lemma_sum_nonnegative(s.drop_last());
}

pub proof fn lemma_sum_nonnegative(s: Seq<u128>)
    ensures
        sum_of(s) >= 0,
    decreases s.len(),
{
    if s.len() > 0 {
        lemma_sum_nonnegative(s.drop_last());
    }
}

/// The quartile `k` (1, 2 or 3) of the ascending sequence `sorted`, times four,
/// where no value exceeds a quarter of `u128::MAX`.
pub fn quartile(sorted: &Vec<u128>, k: u128) -> (r: u128)
    requires
        1 <= k <= 3,
        sorted@.len() > 0,
        forall|i: int| 0 <= i < sorted@.len() ==> 4 * #[trigger] sorted@[i] <= u128::MAX,
    ensures
        r == quartile_x4(sorted@, k as int),
{
    let n = sorted.len();
    let m = (n - 1) as u128;
    assert(k * m <= 3 * 0xffff_ffff_ffff_ffffu128) by (nonlinear_arith)
        requires 1 <= k <= 3, m <= 0xffff_ffff_ffff_ffffu128;
    let pos: u128 = k * m;
    assert(pos / 4 < n) by (nonlinear_arith)
        requires pos == k * m, m == n - 1, 1 <= k <= 3, n >= 1;
    let f = (pos / 4) as usize;
    let r = pos % 4;
    if r == 0 {
        4 * sorted[f]
    } else {
        assert(f + 1 < n) by (nonlinear_arith)
            requires pos == k * m, m == n - 1, 1 <= k <= 3, f == pos / 4, n >= 1, r == pos % 4, r != 0;
        let lo = sorted[f];
        let hi = sorted[f + 1];
        assert((4 - r) * lo + r * hi <= u128::MAX) by (nonlinear_arith)
            requires 4 * lo <= u128::MAX, 4 * hi <= u128::MAX, 0 < r < 4;
        (4 - r) * lo + r * hi
    }
}

proof fn lemma_map_keeps_multiset(a: Seq<u128>, b: Seq<u128>, f: spec_fn(u128) -> u128)
    requires
        a.to_multiset() == b.to_multiset(),
    ensures
        a.map_values(f).to_multiset() == b.map_values(f).to_multiset(),
    decreases a.len(),
{
    if a.len() == 0 {
        assert(b.to_multiset().len() == 0);
        assert(b.map_values(f) =~= a.map_values(f));
    } else {
        let x = a.last();
        assert(a.contains(x)) by {
            assert(a[a.len() - 1] == x);
        }
        assert(a.to_multiset().count(x) > 0);
        assert(b.contains(x));
        let j = choose|j: int| 0 <= j < b.len() && b[j] == x;
        let a1 = a.drop_last();
        let b1 = b.remove(j);
        assert(a.remove(a.len() - 1) =~= a1);
        vstd::seq_lib::to_multiset_remove(a, a.len() - 1);
        vstd::seq_lib::to_multiset_remove(b, j);
        lemma_map_keeps_multiset(a1, b1, f);
        assert(a.map_values(f) =~= a1.map_values(f).push(f(x)));
        assert(b.map_values(f) =~= b1.map_values(f).insert(j, f(x)));
        vstd::seq_lib::to_multiset_build(a1.map_values(f), f(x));
        vstd::seq_lib::to_multiset_insert(b1.map_values(f), j, f(x));
    }
}

proof fn lemma_sum_scales(s: Seq<u128>, scaled: Seq<u128>, c: int)
    requires
        scaled.len() == s.len(),
        forall|i: int| 0 <= i < s.len() ==> scaled[i] == c * s[i],
    ensures
        sum_of(scaled) == c * sum_of(s),
    decreases s.len(),
{
    if s.len() > 0 {
        lemma_sum_scales(s.drop_last(), scaled.drop_last(), c);
        assert(scaled.last() == c * s.last());
        assert(c * sum_of(s.drop_last()) + c * s.last() == c * (sum_of(s.drop_last()) + s.last()))
            by (nonlinear_arith);
    }
}

/// Scaling every latency by a positive factor scales the sum and each
/// quartile by the same factor.
pub proof fn lemma_statistics_scale(s: Seq<u128>, scaled: Seq<u128>, c: int, k: int)
    requires
        c > 0,
        s.len() > 0,
        1 <= k <= 3,
        scaled.len() == s.len(),
        forall|i: int| 0 <= i < s.len() ==> scaled[i] == c * s[i],
    ensures
        sum_of(scaled) == c * sum_of(s),
        statistic_x4(scaled, k) == c * statistic_x4(s, k),
{
    lemma_sum_scales(s, scaled, c);
    lemma_ascending_total();
    let f = |x: u128| (c * x) as u128;
    let sorted = sorted_values(s);
    s.lemma_sort_by_ensures(ascending());
    scaled.lemma_sort_by_ensures(ascending());
    assert(scaled =~= s.map_values(f));
    lemma_map_keeps_multiset(s, sorted, f);
    let y = sorted.map_values(f);
    vstd::seq_lib::to_multiset_len(s);
    vstd::seq_lib::to_multiset_len(sorted);
    assert forall|i: int| 0 <= i < sorted.len() implies y[i] == c * sorted[i] by {
        assert(sorted.contains(sorted[i]));
        let l = choose|l: int| 0 <= l < s.len() && s[l] == sorted[i];
        assert(scaled[l] == c * s[l]);
    }
    assert(sorted_by(y, ascending())) by {
        assert forall|i: int, j: int| 0 <= i < j < y.len() implies #[trigger] ascending()(y[i], y[j]) by {
            assert(ascending()(sorted[i], sorted[j]));
            let a = sorted[i] as int;
            let b = sorted[j] as int;
            assert(c * a <= c * b) by (nonlinear_arith)
                requires a <= b, c > 0;
        }
    }
    vstd::seq_lib::lemma_sorted_unique(sorted_values(scaled), y, ascending());
    let n = s.len();
    let pos = k * (n - 1);
    let q = pos / 4;
    let r = pos % 4;
    assert(0 <= q < n) by (nonlinear_arith)
        requires pos == k * (n - 1), 1 <= k <= 3, q == pos / 4, n >= 1;
    if r != 0 {
        assert(q + 1 < n) by (nonlinear_arith)
            requires pos == k * (n - 1), 1 <= k <= 3, q == pos / 4, n >= 1, r == pos % 4, r != 0;
        let a = sorted[q] as int;
        let b = sorted[q + 1] as int;
        assert((4 - r) * (c * a) + r * (c * b) == c * ((4 - r) * a + r * b)) by (nonlinear_arith);
    } else {
        let a = sorted[q] as int;
        assert(4 * (c * a) == c * (4 * a)) by (nonlinear_arith);
    }
}

/// The interpolated value at a rank lies between the values at the two
/// nearest ranks, and no lower than the value at the rank below.
proof fn lemma_quartile_bounds(sorted: Seq<u128>, k: int)
    requires
        sorted_by(sorted, ascending()),
        sorted.len() > 0,
        1 <= k <= 3,
    ensures
        0 <= k * (sorted.len() - 1) / 4 < sorted.len(),
        4 * sorted[k * (sorted.len() - 1) / 4] <= quartile_x4(sorted, k),
        (k * (sorted.len() - 1)) % 4 != 0 ==> k * (sorted.len() - 1) / 4 + 1 < sorted.len()
            && quartile_x4(sorted, k) <= 4 * sorted[k * (sorted.len() - 1) / 4 + 1],
{
    let n = sorted.len();
    let pos = k * (n - 1);
    let f = pos / 4;
    let r = pos % 4;
    assert(0 <= f < n) by (nonlinear_arith)
        requires pos == k * (n - 1), 1 <= k <= 3, f == pos / 4, n >= 1;
    if r != 0 {
        assert(f + 1 < n) by (nonlinear_arith)
            requires pos == k * (n - 1), 1 <= k <= 3, f == pos / 4, n >= 1, r == pos % 4, r != 0;
        let a = sorted[f] as int;
        let b = sorted[f + 1] as int;
        assert(ascending()(sorted[f], sorted[f + 1]));
        assert(4 * a <= (4 - r) * a + r * b <= 4 * b) by (nonlinear_arith)
            requires a <= b, 0 < r < 4;
    }
}

/// The quartiles are ordered: the lower quartile is at most the median, and
/// the median at most the upper quartile.
pub proof fn lemma_quartiles_ordered(s: Seq<u128>)
    requires
        s.len() > 0,
    ensures
        statistic_x4(s, 1) <= statistic_x4(s, 2),
        statistic_x4(s, 2) <= statistic_x4(s, 3),
{
    lemma_ascending_total();
    s.lemma_sort_by_ensures(ascending());
    let sorted = sorted_values(s);
    vstd::seq_lib::to_multiset_len(s);
    vstd::seq_lib::to_multiset_len(sorted);
    lemma_quartile_step(sorted, 1);
    lemma_quartile_step(sorted, 2);
}

proof fn lemma_quartile_step(sorted: Seq<u128>, k: int)
    requires
        sorted_by(sorted, ascending()),
        sorted.len() > 0,
        1 <= k <= 2,
    ensures
        quartile_x4(sorted, k) <= quartile_x4(sorted, k + 1),
{
    let n = sorted.len();
    let p1 = k * (n - 1);
    let p2 = (k + 1) * (n - 1);
    let f1 = p1 / 4;
    let f2 = p2 / 4;
    let r1 = p1 % 4;
    let r2 = p2 % 4;
    lemma_quartile_bounds(sorted, k);
    lemma_quartile_bounds(sorted, k + 1);
    assert(p1 <= p2) by (nonlinear_arith)
        requires p1 == k * (n - 1), p2 == (k + 1) * (n - 1), n >= 1;
    assert(f1 <= f2) by (nonlinear_arith)
        requires p1 <= p2, f1 == p1 / 4, f2 == p2 / 4, p1 >= 0;
    if f1 < f2 {
        if r1 != 0 {
            assert(ascending()(sorted[f1 + 1], sorted[f2]) || f1 + 1 == f2);
        } else {
            assert(ascending()(sorted[f1], sorted[f2]));
        }
    } else {
        assert(r1 <= r2);
        if r1 != 0 {
            let a = sorted[f1] as int;
            let b = sorted[f1 + 1] as int;
            assert(ascending()(sorted[f1], sorted[f1 + 1]));
            assert((4 - r1) * a + r1 * b <= (4 - r2) * a + r2 * b) by (nonlinear_arith)
                requires a <= b, 0 < r1 <= r2 < 4;
        }
    }
}

} // verus!
