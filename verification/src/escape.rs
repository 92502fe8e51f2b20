//! The escape predicate, as a state machine over radius reports.
//!
//! For a sample point c the orbit is z_0 = 0, z_{k+1} = z_k * z_k + c; the
//! escape loop repeats "check |z_k|^2 <= 4, then advance" and stops at the
//! first check that fails, or after max_iterations advances. The caller
//! performs the floating-point orbit arithmetic and reports each check's
//! outcome; a report sequence `in_radius` stands for the orbit, with
//! `in_radius[k]` telling whether |z_k|^2 <= 4. Everything decided on those
//! reports — when to stop, what count to emit — is verified here.

use vstd::prelude::*;

verus! {

/// The count the escape loop reaches from an intermediate count `k`:
/// the first index at or after `k` whose radius check fails, capped at
/// `max_iterations`.
pub open spec fn escape_count_from(in_radius: Seq<bool>, max_iterations: u64, k: u64) -> u64
    decreases max_iterations - k,
{
    if k >= max_iterations {
        max_iterations
    } else if !in_radius[k as int] {
        k
    } else {
        escape_count_from(in_radius, max_iterations, (k + 1) as u64)
    }
}

/// The iteration count of a point whose orbit reports are `in_radius`:
/// the index of the first failing radius check, capped at `max_iterations`.
/// A count equal to `max_iterations` is the "did not escape" sentinel.
pub open spec fn escape_count(in_radius: Seq<bool>, max_iterations: u64) -> u64 {
    escape_count_from(in_radius, max_iterations, 0)
}

/// A run that has passed every radius check before `k` has not decided
/// anything yet: the count it will reach equals the count reached from `k`.
pub proof fn lemma_escape_count_from_passed(in_radius: Seq<bool>, max_iterations: u64, k: u64)
    requires
        k <= max_iterations,
        forall|j: int| 0 <= j < k ==> in_radius[j],
    ensures
        escape_count(in_radius, max_iterations) == escape_count_from(
            in_radius,
            max_iterations,
            k,
        ),
    decreases k,
{
    if k > 0 {
        lemma_escape_count_from_passed(in_radius, max_iterations, (k - 1) as u64);
    }
}

/// The count of a finished run is determined: `count` checks passed, and the
/// run stopped because the next check failed or the cap was reached.
pub proof fn lemma_escape_count_determined(in_radius: Seq<bool>, max_iterations: u64, count: u64)
    requires
        count <= max_iterations,
        forall|j: int| 0 <= j < count ==> in_radius[j],
        count == max_iterations || !in_radius[count as int],
    ensures
        escape_count(in_radius, max_iterations) == count,
{
    lemma_escape_count_from_passed(in_radius, max_iterations, count);
}

/// A point whose orbit never leaves the radius — the origin c = 0 is one —
/// always yields the sentinel count `max_iterations`.
pub proof fn lemma_never_escapes(in_radius: Seq<bool>, max_iterations: u64)
    requires
        forall|j: int| 0 <= j < max_iterations ==> in_radius[j],
    ensures
        escape_count(in_radius, max_iterations) == max_iterations,
{
    lemma_escape_count_determined(in_radius, max_iterations, max_iterations);
}

/// A point already outside the radius after one advance — any c with
/// |c| > 2 — yields count 1 whenever at least one iteration is allowed:
/// z_0 = 0 passes the first check, z_1 = c fails the second.
pub proof fn lemma_escapes_at_first_check(in_radius: Seq<bool>, max_iterations: u64)
    requires
        max_iterations >= 1,
        in_radius[0],
        !in_radius[1],
    ensures
        escape_count(in_radius, max_iterations) == 1,
{
    lemma_escape_count_determined(in_radius, max_iterations, 1);
}

/// One point's escape loop, advanced one radius check at a time. The caller
/// keeps the floating-point orbit value; `count` is the number of advances
/// taken, and once `finished` the count is final.
pub struct EscapeRun {
    pub count: u64,
    pub max_iterations: u64,
    pub finished: bool,
}

impl EscapeRun {
    /// A fresh run: no advances yet, not finished.
    pub fn new(max_iterations: u64) -> (run: Self)
        ensures
            run.count == 0,
            run.max_iterations == max_iterations,
            !run.finished,
    {
        EscapeRun { count: 0, max_iterations, finished: false }
    }

    /// Take one radius report for the current orbit value z_count. The run
    /// advances exactly when the check passed and the cap is not reached;
    /// otherwise it finishes with its count unchanged.
    pub fn step(&mut self, in_radius: bool)
        requires
            !old(self).finished,
        ensures
            final(self).max_iterations == old(self).max_iterations,
            in_radius && old(self).count < old(self).max_iterations ==> final(self).count == old(
                self,
            ).count + 1 && !final(self).finished,
            !(in_radius && old(self).count < old(self).max_iterations) ==> final(self).count
                == old(self).count && final(self).finished,
    {
        if in_radius && self.count < self.max_iterations {
            self.count = self.count + 1;
        } else {
            self.finished = true;
        }
    }
}

/// The escape count of one point, read off a table of radius reports: the
/// sequential evaluator's inner loop.
pub fn scalar_count(in_radius: &Vec<bool>, max_iterations: u64) -> (count: u64)
    requires
        in_radius.len() >= max_iterations,
    ensures
        count == escape_count(in_radius@, max_iterations),
{
    let mut run = EscapeRun::new(max_iterations);
    proof {
        lemma_escape_count_from_passed(in_radius@, max_iterations, 0);
    }
    while !run.finished
        invariant
            in_radius.len() >= max_iterations,
            run.max_iterations == max_iterations,
            run.count <= max_iterations,
            !run.finished ==> escape_count(in_radius@, max_iterations) == escape_count_from(
                in_radius@,
                max_iterations,
                run.count,
            ),
            run.finished ==> run.count == escape_count(in_radius@, max_iterations),
        decreases 2 * (max_iterations - run.count) + (if run.finished { 0int } else { 1int }),
    {
        let report = if run.count < max_iterations {
            in_radius[run.count as usize]
        } else {
            false
        };
        run.step(report);
    }
    run.count
}

} // verus!
