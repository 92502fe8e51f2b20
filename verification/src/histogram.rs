//! The histogram (rank-normalised) colour policy.
//!
//! Two passes over a finished result set: first count, for each iteration
//! value below the cap, how many points stopped exactly there; a point's
//! hue is then its normalised rank — the fraction of escaping points that
//! stopped strictly earlier, a monotone value in [0, 1). The fraction is
//! delivered exactly, as numerator over denominator; turning it into an
//! HSL colour (fraction of a full turn of hue, full saturation, half
//! lightness) is the caller's floating-point step. Points at the cap are
//! black. Unlike the smooth-log policy this one cannot stream: no colour
//! exists before every result is in, a synchronisation barrier between
//! evaluation and colouring.

use vstd::prelude::*;

verus! {

/// How many entries stop strictly below `value`.
pub open spec fn matching_below(counts: Seq<u64>, value: u64) -> int
    decreases counts.len(),
{
    if counts.len() == 0 {
        0
    } else {
        matching_below(counts.drop_last(), value) + if counts.last() < value {
            1int
        } else {
            0int
        }
    }
}

/// How many entries stop exactly at `value`.
pub open spec fn matching_at(counts: Seq<u64>, value: u64) -> int
    decreases counts.len(),
{
    if counts.len() == 0 {
        0
    } else {
        matching_at(counts.drop_last(), value) + if counts.last() == value {
            1int
        } else {
            0int
        }
    }
}

/// The sum of the first `value` buckets of the histogram.
pub open spec fn bucket_prefix_sum(counts: Seq<u64>, value: u64) -> int
    decreases value,
{
    if value == 0 {
        0
    } else {
        bucket_prefix_sum(counts, (value - 1) as u64) + matching_at(counts, (value - 1) as u64)
    }
}

/// No more entries match than there are entries.
pub proof fn lemma_matching_below_bounds(counts: Seq<u64>, value: u64)
    ensures
        0 <= matching_below(counts, value) <= counts.len(),
        0 <= matching_at(counts, value) <= counts.len(),
    decreases counts.len(),
{
    if counts.len() > 0 {
        lemma_matching_below_bounds(counts.drop_last(), value);
    }
}

/// Stopping below `value` means stopping below `value - 1` or exactly at
/// `value - 1`.
pub proof fn lemma_matching_below_split(counts: Seq<u64>, value: u64)
    requires
        value >= 1,
    ensures
        matching_below(counts, value) == matching_below(counts, (value - 1) as u64)
            + matching_at(counts, (value - 1) as u64),
    decreases counts.len(),
{
    if counts.len() > 0 {
        lemma_matching_below_split(counts.drop_last(), value);
    }
}

/// The spec of the histogram's two passes agrees: summing the buckets
/// below a count is counting the points that stopped below it.
pub proof fn lemma_prefix_sum_is_rank(counts: Seq<u64>, value: u64)
    ensures
        bucket_prefix_sum(counts, value) == matching_below(counts, value),
    decreases value,
{
    if value == 0 {
        assert(matching_below(counts, 0) == 0) by {
            lemma_matching_no_zero(counts);
        }
    } else {
        lemma_prefix_sum_is_rank(counts, (value - 1) as u64);
        lemma_matching_below_split(counts, value);
    }
}

/// Nothing stops below zero.
pub proof fn lemma_matching_no_zero(counts: Seq<u64>)
    ensures
        matching_below(counts, 0) == 0,
    decreases counts.len(),
{
    if counts.len() > 0 {
        lemma_matching_no_zero(counts.drop_last());
    }
}

/// What the histogram policy paints: black for the sentinel, or the exact
/// hue fraction of an escaping point.
#[derive(Clone, Copy, PartialEq, Eq, Structural, Debug)]
pub enum HistogramShade {
    Black,
    Hue { numerator: usize, denominator: usize },
}

/// The histogram policy, fitted to one complete result set. It must see
/// every count before colouring anything: the ranks are over the whole
/// image.
pub struct HistogramMapper {
    pub buckets: Vec<usize>,
    pub total_escaped: usize,
    pub max_iterations: u64,
    pub counts_seen: Ghost<Seq<u64>>,
}

impl HistogramMapper {
    /// The mapper faithfully summarises the counts it was built from.
    pub open spec fn wf(&self) -> bool {
        &&& self.counts_seen@.len() <= usize::MAX
        &&& self.buckets@.len() == self.max_iterations
        &&& forall|k: int|
            0 <= k < self.buckets@.len() ==> self.buckets@[k] == matching_at(
                self.counts_seen@,
                k as u64,
            )
        &&& self.total_escaped == matching_below(self.counts_seen@, self.max_iterations)
    }

    /// First pass: bucket every escaping point by its count, and total
    /// them. Entries at the cap (the non-escape sentinel) fill no bucket.
    pub fn new(counts: &Vec<u64>, max_iterations: u64) -> (mapper: Self)
        requires
            max_iterations <= usize::MAX,
            forall|i: int| 0 <= i < counts@.len() ==> counts@[i] <= max_iterations,
        ensures
            mapper.wf(),
            mapper.counts_seen@ == counts@,
            mapper.max_iterations == max_iterations,
    {
        let mut buckets: Vec<usize> = Vec::new();
        let mut k: u64 = 0;
        while k < max_iterations
            invariant
                k <= max_iterations,
                buckets@.len() == k,
                forall|j: int| 0 <= j < k ==> buckets@[j] == 0,
            decreases max_iterations - k,
        {
            buckets.push(0);
            k = k + 1;
        }
        proof {
            assert forall|j: int| 0 <= j < max_iterations implies buckets@[j] == matching_at(
                counts@.subrange(0, 0),
                j as u64,
            ) by {
                assert(counts@.subrange(0, 0).len() == 0);
            }
        }
        let mut total_escaped: usize = 0;
        let mut i: usize = 0;
        while i < counts.len()
            invariant
                max_iterations <= usize::MAX,
                forall|n: int| 0 <= n < counts@.len() ==> counts@[n] <= max_iterations,
                i <= counts@.len(),
                buckets@.len() == max_iterations,
                forall|j: int|
                    0 <= j < max_iterations ==> buckets@[j] == matching_at(
                        counts@.subrange(0, i as int),
                        j as u64,
                    ),
                total_escaped == matching_below(counts@.subrange(0, i as int), max_iterations),
            decreases counts@.len() - i,
        {
            let count = counts[i];
            let ghost prefix = counts@.subrange(0, i as int);
            let ghost extended = counts@.subrange(0, i as int + 1);
            proof {
                assert(extended.drop_last() =~= prefix);
                assert(extended.last() == counts@[i as int]);
                lemma_matching_below_bounds(prefix, max_iterations);
                assert(prefix.len() <= counts@.len());
            }
            if count < max_iterations {
                proof {
                    lemma_matching_below_bounds(prefix, count);
                }
                let bucket = buckets[count as usize];
                buckets[count as usize] = bucket + 1;
                total_escaped = total_escaped + 1;
                proof {
                    assert forall|j: int| 0 <= j < max_iterations implies buckets@[j]
                        == matching_at(extended, j as u64) by {
                        if j == count {
                            assert(buckets@[j] == matching_at(prefix, j as u64) + 1);
                        } else {
                            assert(buckets@[j] == matching_at(prefix, j as u64));
                        }
                    }
                }
            } else {
                proof {
                    assert(counts@[i as int] == max_iterations);
                    assert forall|j: int| 0 <= j < max_iterations implies buckets@[j]
                        == matching_at(extended, j as u64) by {
                        assert(buckets@[j] == matching_at(prefix, j as u64));
                    }
                }
            }
            i = i + 1;
        }
        proof {
            assert(counts@.subrange(0, counts@.len() as int) =~= counts@);
        }
        HistogramMapper {
            buckets,
            total_escaped,
            max_iterations,
            counts_seen: Ghost(counts@),
        }
    }

    /// Second pass, one point at a time: the sentinel is black; an
    /// escaping point's hue fraction is the sum of the buckets below its
    /// count — how many escaping points stopped strictly earlier — over
    /// the total number of escaping points.
    pub fn shade(&self, iterations: u64) -> (shade: HistogramShade)
        requires
            self.wf(),
            iterations <= self.max_iterations,
        ensures
            iterations == self.max_iterations ==> shade == HistogramShade::Black,
            iterations < self.max_iterations ==> shade == (HistogramShade::Hue {
                numerator: matching_below(self.counts_seen@, iterations) as usize,
                denominator: self.total_escaped,
            }),
    {
        if iterations == self.max_iterations {
            return HistogramShade::Black;
        }
        let mut numerator: usize = 0;
        let mut k: u64 = 0;
        while k < iterations
            invariant
                self.wf(),
                iterations < self.max_iterations,
                k <= iterations,
                numerator == bucket_prefix_sum(self.counts_seen@, k),
            decreases iterations - k,
        {
            proof {
                lemma_prefix_sum_is_rank(self.counts_seen@, k);
                lemma_prefix_sum_is_rank(self.counts_seen@, (k + 1) as u64);
                lemma_matching_below_bounds(self.counts_seen@, (k + 1) as u64);
            }
            numerator = numerator + buckets_entry(&self.buckets, k);
            k = k + 1;
        }
        proof {
            lemma_prefix_sum_is_rank(self.counts_seen@, iterations);
            lemma_matching_below_bounds(self.counts_seen@, iterations);
        }
        HistogramShade::Hue { numerator, denominator: self.total_escaped }
    }
}

/// One bucket of the histogram.
fn buckets_entry(buckets: &Vec<usize>, k: u64) -> (entry: usize)
    requires
        k < buckets@.len(),
    ensures
        entry == buckets@[k as int],
{
    let len = buckets.len();
    proof {
        assert(k < len);
    }
    buckets[k as usize]
}

/// Law: every point at the cap is black, and a lone escaping point ranks
/// first — with exactly one entry below the cap, that entry's hue
/// numerator is the empty sum, zero, while the denominator counts it.
pub proof fn lemma_single_escaper_rank(counts: Seq<u64>, max_iterations: u64, which: int)
    requires
        0 <= which < counts.len(),
        counts[which] < max_iterations,
        forall|j: int| 0 <= j < counts.len() && j != which ==> counts[j] == max_iterations,
    ensures
        matching_below(counts, counts[which]) == 0,
        matching_below(counts, max_iterations) == 1,
    decreases counts.len(),
{
    let n = counts.len() - 1;
    if which == n {
        lemma_matching_all_at_cap(counts.drop_last(), max_iterations, counts[which]);
    } else {
        assert(counts.drop_last()[which] == counts[which]);
        assert forall|j: int|
            0 <= j < counts.drop_last().len() && j != which implies counts.drop_last()[j]
            == max_iterations by {
            assert(counts.drop_last()[j] == counts[j]);
        }
        lemma_single_escaper_rank(counts.drop_last(), max_iterations, which);
        assert(counts.last() == max_iterations);
    }
}

/// Entries at the cap never rank below anything at or under the cap.
pub proof fn lemma_matching_all_at_cap(counts: Seq<u64>, max_iterations: u64, value: u64)
    requires
        value <= max_iterations,
        forall|j: int| 0 <= j < counts.len() ==> counts[j] == max_iterations,
    ensures
        matching_below(counts, value) == 0,
        matching_below(counts, max_iterations) == 0,
    decreases counts.len(),
{
    if counts.len() > 0 {
        assert forall|j: int| 0 <= j < counts.drop_last().len() implies counts.drop_last()[j]
            == max_iterations by {
            assert(counts.drop_last()[j] == counts[j]);
        }
        lemma_matching_all_at_cap(counts.drop_last(), max_iterations, value);
        assert(counts.last() == max_iterations);
    }
}

} // verus!
