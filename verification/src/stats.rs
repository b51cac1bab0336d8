//! Sample aggregation: exact summary statistics and an empirical CDF over
//! an immutable collection of numeric samples.
//!
//! Every quantity is kept exact: a statistic is a ratio of two integers, a
//! cumulative fraction is a count over a total. Percentiles use
//! linear-interpolation order statistics over the sorted samples, so the
//! 0th and 100th percentiles are the minimum and maximum. Requesting an
//! aggregate of an empty sample set fails with `EmptyDataset` rather than
//! returning a sentinel.

pub mod delivery_rate;
pub mod download_duration;
pub mod startup_exit;

use vstd::prelude::*;

use crate::error::BoarError;

verus! {

broadcast use vstd::seq_lib::group_to_multiset_ensures;

/// An exact non-negative rational: `num / den`.
#[derive(Clone, Copy, Debug, PartialEq, Eq, Structural)]
pub struct Ratio {
    pub num: u128,
    pub den: u128,
}

impl Ratio {
    /// The ratio is a well-formed fraction.
    pub open spec fn wf(self) -> bool {
        self.den > 0
    }

    /// The ratio equals the whole number `v`.
    pub open spec fn represents(self, v: nat) -> bool {
        self.den > 0 && self.num == v * self.den
    }
}

/// The sequence is ordered from least to greatest.
pub open spec fn is_sorted(s: Seq<u64>) -> bool {
    forall|i: int, j: int| 0 <= i <= j < s.len() ==> s[i] <= s[j]
}

/// `v` inserted after the last element of `s` that is at most `v`.
pub open spec fn insert_sorted(s: Seq<u64>, v: u64) -> Seq<u64>
    decreases s.len(),
{
    if s.len() == 0 {
        seq![v]
    } else if v >= s.last() {
        s.push(v)
    } else {
        insert_sorted(s.drop_last(), v).push(s.last())
    }
}

/// The samples of `s` in ascending order.
pub open spec fn sort_spec(s: Seq<u64>) -> Seq<u64>
    decreases s.len(),
{
    if s.len() == 0 {
        Seq::empty()
    } else {
        insert_sorted(sort_spec(s.drop_last()), s.last())
    }
}

/// The greatest element of a non-empty sequence.
pub open spec fn seq_max(s: Seq<u64>) -> u64
    recommends
        s.len() > 0,
    decreases s.len(),
{
    if s.len() <= 1 {
        s[0]
    } else if s.last() >= seq_max(s.drop_last()) {
        s.last()
    } else {
        seq_max(s.drop_last())
    }
}

/// The least element of a non-empty sequence.
pub open spec fn seq_min(s: Seq<u64>) -> u64
    recommends
        s.len() > 0,
    decreases s.len(),
{
    if s.len() <= 1 {
        s[0]
    } else if s.last() <= seq_min(s.drop_last()) {
        s.last()
    } else {
        seq_min(s.drop_last())
    }
}

/// The sum of all elements.
pub open spec fn seq_sum(s: Seq<u64>) -> nat
    decreases s.len(),
{
    if s.len() == 0 {
        0
    } else {
        seq_sum(s.drop_last()) + s.last() as nat
    }
}

/// Inserting into a sorted sequence keeps it sorted, adds exactly the new
/// element, and introduces no foreign elements.
pub proof fn lemma_insert_sorted(s: Seq<u64>, v: u64)
    requires
        is_sorted(s),
    ensures
        is_sorted(insert_sorted(s, v)),
        insert_sorted(s, v).to_multiset() =~= s.to_multiset().insert(v),
        insert_sorted(s, v).len() == s.len() + 1,
        forall|i: int|
            0 <= i < insert_sorted(s, v).len() ==> insert_sorted(s, v)[i] == v || s.contains(
                #[trigger] insert_sorted(s, v)[i],
            ),
    decreases s.len(),
{
    let r = insert_sorted(s, v);
    if s.len() == 0 {
        assert(seq![v].to_multiset() =~= s.to_multiset().insert(v)) by {
            assert(seq![v] =~= Seq::<u64>::empty().push(v));
            assert(s =~= Seq::<u64>::empty());
        }
    } else if v >= s.last() {
        assert(s =~= s.drop_last().push(s.last()));
        assert(forall|i: int| 0 <= i < s.len() ==> s[i] <= s.last());
    } else {
        let d = s.drop_last();
        assert(is_sorted(d)) by {
            assert(forall|i: int| 0 <= i < d.len() ==> d[i] == s[i]);
        }
        lemma_insert_sorted(d, v);
        let rr = insert_sorted(d, v);
        assert(s =~= d.push(s.last()));
        assert(r.to_multiset() =~= s.to_multiset().insert(v)) by {
            assert(rr.to_multiset() =~= d.to_multiset().insert(v));
            assert(r =~= rr.push(s.last()));
            assert(s.to_multiset() =~= d.to_multiset().insert(s.last()));
            assert(r.to_multiset() =~= rr.to_multiset().insert(s.last()));
        }
        assert forall|i: int, j: int| 0 <= i <= j < r.len() implies r[i] <= r[j] by {
            if j < r.len() - 1 {
                assert(rr[i] <= rr[j]);
            } else if i < r.len() - 1 {
                assert(r[i] == rr[i]);
                assert(rr[i] == v || d.contains(rr[i]));
                assert(forall|m: int| 0 <= m < d.len() ==> d[m] <= s.last());
            }
        }
    }
}

/// Sorting orders the samples and preserves exactly their multiset.
pub proof fn lemma_sort_spec(s: Seq<u64>)
    ensures
        is_sorted(sort_spec(s)),
        sort_spec(s).to_multiset() =~= s.to_multiset(),
        sort_spec(s).len() == s.len(),
    decreases s.len(),
{
    if s.len() > 0 {
        let d = s.drop_last();
        lemma_sort_spec(d);
        lemma_insert_sorted(sort_spec(d), s.last());
        assert(s =~= d.push(s.last()));
        assert(s.to_multiset() =~= d.to_multiset().insert(s.last()));
    }
}

/// The greatest element is an element and dominates all elements.
pub proof fn lemma_seq_max(s: Seq<u64>)
    requires
        s.len() > 0,
    ensures
        s.contains(seq_max(s)),
        forall|i: int| 0 <= i < s.len() ==> s[i] <= seq_max(s),
    decreases s.len(),
{
    if s.len() > 1 {
        lemma_seq_max(s.drop_last());
        assert(forall|i: int| 0 <= i < s.len() - 1 ==> s[i] == s.drop_last()[i]);
        if s.drop_last().contains(seq_max(s)) {
            let k = choose|k: int|
                0 <= k < s.drop_last().len() && s.drop_last()[k] == seq_max(s);
            assert(s[k] == seq_max(s));
        }
    }
}

/// The least element is an element and is dominated by all elements.
pub proof fn lemma_seq_min(s: Seq<u64>)
    requires
        s.len() > 0,
    ensures
        s.contains(seq_min(s)),
        forall|i: int| 0 <= i < s.len() ==> s[i] >= seq_min(s),
    decreases s.len(),
{
    if s.len() > 1 {
        lemma_seq_min(s.drop_last());
        assert(forall|i: int| 0 <= i < s.len() - 1 ==> s[i] == s.drop_last()[i]);
        if s.drop_last().contains(seq_min(s)) {
            let k = choose|k: int|
                0 <= k < s.drop_last().len() && s.drop_last()[k] == seq_min(s);
            assert(s[k] == seq_min(s));
        }
    }
}

/// The sorted samples end at the maximum and start at the minimum.
pub proof fn lemma_sort_spec_extremes(s: Seq<u64>)
    requires
        s.len() > 0,
    ensures
        sort_spec(s).last() == seq_max(s),
        sort_spec(s)[0] == seq_min(s),
{
    let t = sort_spec(s);
    lemma_sort_spec(s);
    lemma_seq_max(s);
    lemma_seq_min(s);
    assert(s.to_multiset().contains(seq_max(s)));
    assert(t.to_multiset().contains(seq_max(s)));
    assert(t.contains(seq_max(s)));
    assert(s.to_multiset().contains(seq_min(s)));
    assert(t.to_multiset().contains(seq_min(s)));
    assert(t.contains(seq_min(s)));
    assert(t.contains(t.last()));
    assert(t.to_multiset().contains(t.last()));
    assert(s.contains(t.last()));
    assert(t.contains(t[0]));
    assert(t.to_multiset().contains(t[0]));
    assert(s.contains(t[0]));
    let ka = choose|k: int| 0 <= k < t.len() && t[k] == seq_max(s);
    assert(t[ka] <= t.last());
    let kb = choose|k: int| 0 <= k < t.len() && t[k] == seq_min(s);
    assert(t[kb] >= t[0]);
    let ja = choose|k: int| 0 <= k < s.len() && s[k] == t.last();
    assert(s[ja] <= seq_max(s));
    let jb = choose|k: int| 0 <= k < s.len() && s[k] == t[0];
    assert(s[jb] >= seq_min(s));
}

/// Where a scan from the end stops is where the insertion splits the
/// sorted sequence.
proof fn lemma_insert_sorted_split(s: Seq<u64>, v: u64, j: int)
    requires
        is_sorted(s),
        0 <= j <= s.len(),
        j == 0 || s[j - 1] <= v,
        j == s.len() || s[j] > v,
    ensures
        insert_sorted(s, v) =~= s.subrange(0, j) + seq![v] + s.subrange(j, s.len() as int),
    decreases s.len(),
{
    if j == s.len() {
        if s.len() == 0 {
        } else {
            assert(v >= s.last());
        }
    } else {
        assert(s.last() >= s[j]);
        assert(v < s.last());
        let d = s.drop_last();
        assert(is_sorted(d)) by {
            assert(forall|i: int| 0 <= i < d.len() ==> d[i] == s[i]);
        }
        lemma_insert_sorted_split(d, v, j);
    }
}

/// The linear-interpolation percentile of the sorted samples `s` at `p`
/// (out of one hundred): the fractional rank `p * (len - 1) / 100` read as
/// a weighted mean of the two neighbouring order statistics.
pub open spec fn spec_percentile(s: Seq<u64>, p: int) -> Ratio
    recommends
        s.len() > 0,
        0 <= p <= 100,
{
    let n = s.len() as int;
    let rank = p * (n - 1);
    let lo = rank / 100;
    let rem = rank % 100;
    if rem == 0 {
        Ratio { num: (s[lo] as nat * 100) as u128, den: 100 }
    } else {
        Ratio { num: (s[lo] as nat * (100 - rem) + s[lo + 1] as nat * rem) as u128, den: 100 }
    }
}

/// The empirical CDF of the sorted samples `s`: one pair per distinct
/// value, holding the count of samples at or below it. Duplicates collapse
/// into the pair of their last occurrence.
pub open spec fn spec_cdf(s: Seq<u64>) -> Seq<(u64, int)>
    decreases s.len(),
{
    if s.len() == 0 {
        Seq::empty()
    } else {
        let pre = spec_cdf(s.drop_last());
        if pre.len() > 0 && pre.last().0 == s.last() {
            pre.update(pre.len() - 1, (s.last(), s.len() as int))
        } else {
            pre.push((s.last(), s.len() as int))
        }
    }
}

/// Over a sorted non-empty sequence the CDF is non-empty, its values are
/// strictly increasing, its counts are positive and non-decreasing, and the
/// final count equals the total, so the final fraction is exactly one.
pub proof fn lemma_cdf_properties(s: Seq<u64>)
    requires
        is_sorted(s),
        s.len() > 0,
    ensures
        spec_cdf(s).len() > 0,
        spec_cdf(s).last().1 == s.len(),
        spec_cdf(s).last().0 == s.last(),
        forall|i: int, j: int|
            0 <= i < j < spec_cdf(s).len() ==> spec_cdf(s)[i].0 < spec_cdf(s)[j].0,
        forall|i: int| 0 <= i < spec_cdf(s).len() ==> 0 < (#[trigger] spec_cdf(s)[i]).1 <= s.len(),
    decreases s.len(),
{
    if s.len() == 1 {
        let d = s.drop_last();
        assert(spec_cdf(d) == Seq::<(u64, int)>::empty());
        assert(spec_cdf(s) == spec_cdf(d).push((s.last(), s.len() as int)));
    } else {
        let d = s.drop_last();
        assert(is_sorted(d)) by {
            assert(forall|i: int| 0 <= i < d.len() ==> d[i] == s[i]);
        }
        lemma_cdf_properties(d);
        assert(d.last() == s[s.len() - 2] && s.last() == s[s.len() - 1]);
        assert(d.last() <= s.last());
        let pre = spec_cdf(d);
        let c = spec_cdf(s);
        if pre.last().0 == s.last() {
            assert(c == pre.update(pre.len() - 1, (s.last(), s.len() as int)));
            assert forall|i: int, j: int| 0 <= i < j < c.len() implies c[i].0 < c[j].0 by {
                assert(c[i].0 == pre[i].0);
                assert(c[j].0 == pre[j].0 || c[j].0 == s.last());
                assert(pre[i].0 < pre[j].0);
            }
            assert forall|i: int| 0 <= i < c.len() implies 0 < (#[trigger] c[i]).1 <= s.len() by {
                if i < c.len() - 1 {
                    assert(c[i] == pre[i]);
                    assert(0 < pre[i].1 <= d.len());
                }
            }
        } else {
            assert(d.last() < s.last());
            assert(c == pre.push((s.last(), s.len() as int)));
            assert forall|i: int, j: int| 0 <= i < j < c.len() implies c[i].0 < c[j].0 by {
                if j < c.len() - 1 {
                    assert(c[i].0 == pre[i].0 && c[j].0 == pre[j].0);
                } else {
                    assert(c[j].0 == s.last());
                    assert(c[i].0 == pre[i].0);
                    if i < pre.len() - 1 {
                        assert(pre[i].0 < pre[pre.len() - 1].0);
                    }
                    assert(pre.last().0 == d.last());
                }
            }
            assert forall|i: int| 0 <= i < c.len() implies 0 < (#[trigger] c[i]).1 <= s.len() by {
                if i < c.len() - 1 {
                    assert(c[i] == pre[i]);
                    assert(0 < pre[i].1 <= d.len());
                }
            }
        }
    }
}

/// For every non-empty sample sequence, the empirical CDF ends with a
/// fraction of exactly one — its last count equals the total — and its
/// values are strictly increasing.
pub proof fn lemma_cdf_of_samples(s: Seq<u64>)
    requires
        s.len() > 0,
    ensures
        ({
            let c = spec_cdf(sort_spec(s));
            &&& c.len() > 0
            &&& c.last().1 == s.len()
            &&& forall|i: int, j: int| 0 <= i < j < c.len() ==> c[i].0 < c[j].0
            &&& forall|i: int| 0 <= i < c.len() ==> 0 < (#[trigger] c[i]).1 <= s.len()
        }),
{
    lemma_sort_spec(s);
    lemma_cdf_properties(sort_spec(s));
}

/// A percentile's numerator is bounded by one hundred times the largest
/// sample, and its denominator is one hundred.
pub proof fn lemma_percentile_bound(s: Seq<u64>, p: int)
    requires
        s.len() > 0,
        0 <= p <= 100,
    ensures
        spec_percentile(s, p).num <= 100 * (u64::MAX as u128),
        spec_percentile(s, p).den == 100,
{
    let n = s.len() as int;
    let rank = p * (n - 1);
    let lo = rank / 100;
    let rem = rank % 100;
    assert(p * (n - 1) >= 0) by (nonlinear_arith)
        requires
            p >= 0,
            n >= 1,
    ;
    if rem == 0 {
        assert(s[lo] as nat * 100 <= u64::MAX as nat * 100) by (nonlinear_arith)
            requires
                s[lo] <= u64::MAX,
        ;
    } else {
        let a = s[lo] as nat;
        let b = s[lo + 1] as nat;
        assert(a * (100 - rem) + b * rem <= u64::MAX as nat * 100) by (nonlinear_arith)
            requires
                a <= u64::MAX as nat,
                b <= u64::MAX as nat,
                0 < rem < 100,
        ;
    }
}

/// The points are exactly the empirical CDF of the samples: one point per
/// distinct value in ascending order, counting the samples at or below it,
/// over the total sample count.
pub open spec fn cdf_matches(pts: Seq<CdfPoint>, samples: Seq<u64>) -> bool {
    let pairs = spec_cdf(sort_spec(samples));
    &&& pts.len() == pairs.len()
    &&& forall|i: int|
        0 <= i < pairs.len() ==> (#[trigger] pts[i]).value == pairs[i].0 && pts[i].count as int
            == pairs[i].1 && pts[i].total == samples.len()
}

/// One point of an empirical CDF: `count` of `total` samples are at or
/// below `value`.
#[derive(Clone, Copy, Debug, PartialEq, Eq, Structural)]
pub struct CdfPoint {
    pub value: u64,
    pub count: u64,
    pub total: u64,
}

/// A named, frozen collection of samples of one metric kind, gathered
/// across all trials of a run.
#[derive(Clone, Debug)]
pub struct Stats {
    /// The metric kind the samples belong to.
    pub name: String,
    /// The raw samples, in collection order.
    pub samples: Vec<u64>,
}

impl Stats {
    /// A sample set over the given raw samples.
    pub fn new(name: String, samples: Vec<u64>) -> (r: Stats)
        ensures
            r.name@ == name@,
            r.samples@ == samples@,
    {
        Stats { name, samples }
    }

    /// The samples in ascending order.
    fn sorted_samples(&self) -> (r: Vec<u64>)
        ensures
            r@ == sort_spec(self.samples@),
            is_sorted(r@),
            r@.len() == self.samples@.len(),
    {
        let mut r: Vec<u64> = Vec::new();
        let mut i: usize = 0;
        while i < self.samples.len()
            invariant
                i <= self.samples@.len(),
                r@ == sort_spec(self.samples@.take(i as int)),
                is_sorted(r@),
            decreases self.samples@.len() - i,
        {
            let ghost pre = self.samples@.take(i as int);
            let x = self.samples[i];
            let mut j: usize = r.len();
            while j > 0 && r[j - 1] > x
                invariant
                    j <= r@.len(),
                    forall|m: int| j <= m < r@.len() ==> r@[m] > x,
                decreases j,
            {
                j -= 1;
            }
            proof {
                lemma_insert_sorted_split(r@, x, j as int);
            }
            r.insert(j, x);
            proof {
                assert(self.samples@.take(i + 1).drop_last() =~= pre);
                assert(self.samples@.take(i + 1).last() == self.samples@[i as int]);
                assert(r@ =~= insert_sorted(sort_spec(pre), x));
                lemma_sort_spec(pre);
                lemma_insert_sorted(sort_spec(pre), x);
            }
            i += 1;
        }
        proof {
            assert(self.samples@.take(self.samples@.len() as int) =~= self.samples@);
            lemma_sort_spec(self.samples@);
        }
        r
    }

    /// The `p`th linear-interpolation percentile of the samples, exact.
    ///
    /// Fails with `EmptyDataset` exactly when the sample set is empty.
    pub fn percentile(&self, p: u64) -> (r: Result<Ratio, BoarError>)
        requires
            p <= 100,
        ensures
            match r {
                Ok(rt) => self.samples@.len() > 0 && rt == spec_percentile(
                    sort_spec(self.samples@),
                    p as int,
                ),
                Err(e) => self.samples@.len() == 0 && e == BoarError::EmptyDataset,
            },
    {
        let sorted = self.sorted_samples();
        percentile_of_sorted(&sorted, p)
    }

    /// The arithmetic mean of the samples, exact.
    ///
    /// Fails with `EmptyDataset` exactly when the sample set is empty.
    pub fn mean(&self) -> (r: Result<Ratio, BoarError>)
        ensures
            match r {
                Ok(rt) => self.samples@.len() > 0 && rt == (Ratio {
                    num: seq_sum(self.samples@) as u128,
                    den: self.samples@.len() as u128,
                }),
                Err(e) => self.samples@.len() == 0 && e == BoarError::EmptyDataset,
            },
    {
        let n = self.samples.len();
        if n == 0 {
            return Err(BoarError::EmptyDataset);
        }
        let mut acc: u128 = 0;
        let mut i: usize = 0;
        while i < n
            invariant
                i <= n,
                n == self.samples@.len(),
                acc as nat == seq_sum(self.samples@.take(i as int)),
                acc as nat <= (i as nat) * 0xFFFF_FFFF_FFFF_FFFF,
            decreases n - i,
        {
            proof {
                assert(self.samples@.take(i + 1).drop_last() =~= self.samples@.take(i as int));
                assert((i + 1) as nat * 0xFFFF_FFFF_FFFF_FFFF == (i as nat) * 0xFFFF_FFFF_FFFF_FFFF
                    + 0xFFFF_FFFF_FFFF_FFFF) by (nonlinear_arith);
                assert((i as nat) * 0xFFFF_FFFF_FFFF_FFFF <= (usize::MAX as nat)
                    * 0xFFFF_FFFF_FFFF_FFFF) by (nonlinear_arith)
                    requires
                        i <= usize::MAX,
                ;
            }
            acc = acc + self.samples[i] as u128;
            i += 1;
        }
        proof {
            assert(self.samples@.take(n as int) =~= self.samples@);
        }
        Ok(Ratio { num: acc, den: n as u128 })
    }

    /// The aggregate statistics of the samples.
    ///
    /// Fails with `EmptyDataset` exactly when the sample set is empty.
    pub fn aggregate(&self) -> (r: Result<AggregateStats, BoarError>)
        ensures
            match r {
                Ok(a) => self.samples@.len() > 0 && aggregate_matches(a, self.samples@),
                Err(e) => self.samples@.len() == 0 && e == BoarError::EmptyDataset,
            },
    {
        AggregateStats::new(&self.samples)
    }

    /// The empirical CDF of the samples: one point per distinct value,
    /// with the count of samples at or below it and the total sample count.
    /// An empty sample set yields an empty curve.
    pub fn cdf(&self) -> (r: Vec<CdfPoint>)
        ensures
            cdf_matches(r@, self.samples@),
    {
        let sorted = self.sorted_samples();
        let n = sorted.len();
        let mut r: Vec<CdfPoint> = Vec::new();
        let mut i: usize = 0;
        while i < n
            invariant
                i <= n,
                n == sorted@.len(),
                sorted@ == sort_spec(self.samples@),
                ({
                    let pairs = spec_cdf(sorted@.take(i as int));
                    &&& r@.len() == pairs.len()
                    &&& forall|k: int|
                        0 <= k < pairs.len() ==> (#[trigger] r@[k]).value == pairs[k].0
                            && r@[k].count as int == pairs[k].1 && r@[k].total == n
                }),
            decreases n - i,
        {
            let ghost pre = spec_cdf(sorted@.take(i as int));
            proof {
                assert(sorted@.take(i + 1).drop_last() =~= sorted@.take(i as int));
                assert(sorted@.take(i + 1).last() == sorted@[i as int]);
            }
            let v = sorted[i];
            let rlen = r.len();
            if rlen > 0 && r[rlen - 1].value == v {
                let _ = r.pop();
                r.push(CdfPoint { value: v, count: (i + 1) as u64, total: n as u64 });
                proof {
                    assert(pre.last().0 == sorted@[i as int]);
                    let pairs = spec_cdf(sorted@.take(i + 1));
                    assert(pairs =~= pre.update(pre.len() - 1, (sorted@[i as int], i + 1)));
                }
            } else {
                r.push(CdfPoint { value: v, count: (i + 1) as u64, total: n as u64 });
                proof {
                    let pairs = spec_cdf(sorted@.take(i + 1));
                    assert(pairs =~= pre.push((sorted@[i as int], i + 1)));
                }
            }
            i += 1;
        }
        proof {
            assert(sorted@.take(n as int) =~= sorted@);
        }
        r
    }
}

/// The `p`th linear-interpolation percentile of an already-sorted sequence.
fn percentile_of_sorted(sorted: &Vec<u64>, p: u64) -> (r: Result<Ratio, BoarError>)
    requires
        p <= 100,
        is_sorted(sorted@),
    ensures
        match r {
            Ok(rt) => sorted@.len() > 0 && rt == spec_percentile(sorted@, p as int),
            Err(e) => sorted@.len() == 0 && e == BoarError::EmptyDataset,
        },
{
    let n = sorted.len();
    if n == 0 {
        return Err(BoarError::EmptyDataset);
    }
    let nm1: u128 = (n - 1) as u128;
    proof {
        assert((p as u128) * nm1 <= 100 * nm1) by (nonlinear_arith)
            requires
                p <= 100,
        ;
    }
    let rank: u128 = (p as u128) * nm1;
    let lo128: u128 = rank / 100;
    let rem: u128 = rank % 100;
    proof {
        assert(rank <= 100 * nm1);
        assert(rank == 100 * lo128 + rem);
        if lo128 >= n as u128 {
            assert(100 * lo128 >= 100 * (n as u128)) by (nonlinear_arith)
                requires
                    lo128 >= n as u128,
            ;
        }
        if rem > 0 && lo128 >= (n - 1) as u128 {
            assert(100 * lo128 >= 100 * ((n - 1) as u128)) by (nonlinear_arith)
                requires
                    lo128 >= (n - 1) as u128,
            ;
        }
    }
    let lo = lo128 as usize;
    if rem == 0 {
        let num: u128 = (sorted[lo] as u128) * 100;
        Ok(Ratio { num, den: 100 })
    } else {
        let a: u128 = sorted[lo] as u128;
        let b: u128 = sorted[lo + 1] as u128;
        proof {
            assert(a * (100 - rem) <= 0xFFFF_FFFF_FFFF_FFFF * 100) by (nonlinear_arith)
                requires
                    a <= 0xFFFF_FFFF_FFFF_FFFF,
                    0 < rem < 100,
            ;
            assert(b * rem <= 0xFFFF_FFFF_FFFF_FFFF * 100) by (nonlinear_arith)
                requires
                    b <= 0xFFFF_FFFF_FFFF_FFFF,
                    0 < rem < 100,
            ;
        }
        let num: u128 = a * (100 - rem) + b * rem;
        Ok(Ratio { num, den: 100 })
    }
}

/// The aggregate fields all describe the sample sequence `s`.
pub open spec fn aggregate_matches(a: AggregateStats, s: Seq<u64>) -> bool {
    let t = sort_spec(s);
    &&& a.median == spec_percentile(t, 50)
    &&& a.mean == Option::Some(Ratio { num: seq_sum(s) as u128, den: s.len() as u128 })
    &&& a.p0 == spec_percentile(t, 0)
    &&& a.p25 == spec_percentile(t, 25)
    &&& a.p50 == spec_percentile(t, 50)
    &&& a.p75 == spec_percentile(t, 75)
    &&& a.p90 == spec_percentile(t, 90)
    &&& a.p99 == spec_percentile(t, 99)
    &&& a.p100 == spec_percentile(t, 100)
    &&& a.trimean == (Ratio {
        num: (spec_percentile(t, 25).num + 2 * spec_percentile(t, 50).num + spec_percentile(
            t,
            75,
        ).num) as u128,
        den: 400,
    })
}

/// Summary statistics of one sample set: median, optional mean, fixed
/// percentiles, and the trimean `(p25 + 2*p50 + p75) / 4`.
#[derive(Clone, Copy, Debug, PartialEq, Eq, Structural)]
pub struct AggregateStats {
    pub median: Ratio,
    pub mean: Option<Ratio>,
    pub p0: Ratio,
    pub p25: Ratio,
    pub p50: Ratio,
    pub p75: Ratio,
    pub p90: Ratio,
    pub p99: Ratio,
    pub p100: Ratio,
    pub trimean: Ratio,
}

impl AggregateStats {
    /// The aggregate statistics of the given samples.
    ///
    /// Fails with `EmptyDataset` exactly when the sample set is empty.
    pub fn new(data: &Vec<u64>) -> (r: Result<AggregateStats, BoarError>)
        ensures
            match r {
                Ok(a) => data@.len() > 0 && aggregate_matches(a, data@),
                Err(e) => data@.len() == 0 && e == BoarError::EmptyDataset,
            },
    {
        let stats = Stats::new(String::new(), data.clone());
        proof {
            assert(stats.samples@ == data@);
        }
        if data.len() == 0 {
            return Err(BoarError::EmptyDataset);
        }
        let p0 = match stats.percentile(0) {
            Ok(v) => v,
            Err(_) => {
                return Err(BoarError::EmptyDataset);
            },
        };
        let p25 = match stats.percentile(25) {
            Ok(v) => v,
            Err(_) => {
                return Err(BoarError::EmptyDataset);
            },
        };
        let p50 = match stats.percentile(50) {
            Ok(v) => v,
            Err(_) => {
                return Err(BoarError::EmptyDataset);
            },
        };
        let p75 = match stats.percentile(75) {
            Ok(v) => v,
            Err(_) => {
                return Err(BoarError::EmptyDataset);
            },
        };
        let p90 = match stats.percentile(90) {
            Ok(v) => v,
            Err(_) => {
                return Err(BoarError::EmptyDataset);
            },
        };
        let p99 = match stats.percentile(99) {
            Ok(v) => v,
            Err(_) => {
                return Err(BoarError::EmptyDataset);
            },
        };
        let p100 = match stats.percentile(100) {
            Ok(v) => v,
            Err(_) => {
                return Err(BoarError::EmptyDataset);
            },
        };
        let mean = match stats.mean() {
            Ok(v) => v,
            Err(_) => {
                return Err(BoarError::EmptyDataset);
            },
        };
        proof {
            lemma_percentile_bound(sort_spec(data@), 25);
            lemma_percentile_bound(sort_spec(data@), 50);
            lemma_percentile_bound(sort_spec(data@), 75);
        }
        let trimean = Ratio { num: p25.num + 2 * p50.num + p75.num, den: 400 };
        Ok(
            AggregateStats {
                median: p50,
                mean: Some(mean),
                p0,
                p25,
                p50,
                p75,
                p90,
                p99,
                p100,
                trimean,
            },
        )
    }
}

/// For every sample sequence, the 100th percentile is the maximum sample
/// and the 0th percentile is the minimum sample.
pub proof fn lemma_percentile_extremes(s: Seq<u64>)
    requires
        s.len() > 0,
    ensures
        spec_percentile(sort_spec(s), 100).represents(seq_max(s) as nat),
        spec_percentile(sort_spec(s), 0).represents(seq_min(s) as nat),
{
    let t = sort_spec(s);
    lemma_sort_spec(s);
    lemma_sort_spec_extremes(s);
    let n = t.len() as int;
    assert((100 * (n - 1)) % 100 == 0 && (100 * (n - 1)) / 100 == n - 1) by (nonlinear_arith)
        requires
            n >= 1,
    ;
    assert((0 * (n - 1)) == 0);
    assert(t[n - 1] == t.last());
}

} // verus!
