//! The lane-recycling scheduler of the vectorised evaluator.
//!
//! Eight lanes each carry one point's escape loop. An outer step refills
//! every empty lane from the point queue, then a burst of vector iterations
//! advances all active lanes together — the caller computes the eight
//! orbit values and reports the eight radius checks, the scheduler decides
//! which lanes advance, which are done, and with what count. Finished lanes
//! are harvested and recycled; a lane's count stops the moment its check
//! fails, so recycling can neither drop, duplicate nor mis-terminate a
//! point's count.

use vstd::prelude::*;

verus! {

use crate::escape::escape_count;
use vstd::multiset::Multiset;

/// Number of lanes driven by one vector instruction.
pub const LANE_COUNT: usize = 8;

/// Length of the inner burst: how many vector iterations run between two
/// refills. A tunable of the kernel, independent of the iteration cap.
pub const BURST_LENGTH: u64 = 50;

/// What a lane is doing: waiting for a point, running one, or holding a
/// finished result that has not been harvested yet.
#[derive(Clone, Copy)]
pub enum LaneState {
    Empty,
    Active,
    Done,
}

/// One lane: the point it carries (as its index in the sampling order) and
/// the number of radius checks that point has passed.
#[derive(Clone, Copy)]
pub struct Lane {
    pub state: LaneState,
    pub point: u64,
    pub count: u64,
}

/// A lane with nothing in it.
pub open spec fn empty_lane() -> Lane {
    Lane { state: LaneState::Empty, point: 0, count: 0 }
}

/// A lane freshly filled with `point`: active, no checks passed yet.
pub open spec fn filled_lane(point: u64) -> Lane {
    Lane { state: LaneState::Active, point, count: 0 }
}

/// `lane` after one more passed radius check.
pub open spec fn advanced_lane(lane: Lane) -> Lane {
    Lane { state: LaneState::Active, point: lane.point, count: (lane.count + 1) as u64 }
}

/// `lane` once its run has finished: the count is frozen.
pub open spec fn done_lane(lane: Lane) -> Lane {
    Lane { state: LaneState::Done, point: lane.point, count: lane.count }
}

/// What one burst iteration does to one lane, given that lane's radius
/// report: an active lane advances exactly when its check passed and the
/// cap is not reached, and otherwise finishes with its count frozen the
/// moment the check fails; other lanes are untouched.
pub open spec fn burst_transition(lane: Lane, in_radius: bool, max_iterations: u64) -> Lane {
    if lane.state is Active {
        if in_radius && lane.count < max_iterations {
            advanced_lane(lane)
        } else {
            done_lane(lane)
        }
    } else {
        lane
    }
}

/// The scheduler: the eight lanes and the shared iteration cap.
pub struct VectorScheduler {
    pub lanes: Vec<Lane>,
    pub max_iterations: u64,
}

impl VectorScheduler {
    /// There are exactly `LANE_COUNT` lanes.
    pub open spec fn wf(&self) -> bool {
        self.lanes@.len() == LANE_COUNT
    }

    /// A fresh scheduler: all lanes empty.
    pub fn new(max_iterations: u64) -> (scheduler: Self)
        ensures
            scheduler.wf(),
            scheduler.max_iterations == max_iterations,
            forall|i: int| 0 <= i < LANE_COUNT ==> scheduler.lanes@[i] == empty_lane(),
    {
        let mut lanes: Vec<Lane> = Vec::new();
        let mut i: usize = 0;
        while i < LANE_COUNT
            invariant
                i <= LANE_COUNT,
                lanes@.len() == i,
                forall|j: int| 0 <= j < i ==> lanes@[j] == empty_lane(),
            decreases LANE_COUNT - i,
        {
            lanes.push(Lane { state: LaneState::Empty, point: 0, count: 0 });
            i = i + 1;
        }
        VectorScheduler { lanes, max_iterations }
    }

    /// Read one lane.
    pub fn lane(&self, i: usize) -> (lane: Lane)
        requires
            self.wf(),
            i < LANE_COUNT,
        ensures
            lane == self.lanes@[i as int],
    {
        self.lanes[i]
    }

    /// Put `point` into an empty lane, making it active with count 0.
    pub fn fill_lane(&mut self, i: usize, point: u64)
        requires
            old(self).wf(),
            i < LANE_COUNT,
            old(self).lanes@[i as int].state is Empty,
        ensures
            final(self).wf(),
            final(self).max_iterations == old(self).max_iterations,
            final(self).lanes@ == old(self).lanes@.update(i as int, filled_lane(point)),
    {
        self.lanes[i] = Lane { state: LaneState::Active, point, count: 0 };
    }

    /// One vector iteration across all lanes: lane `i` takes the radius
    /// report `in_radius[i]` for its current orbit value and moves by
    /// `burst_transition`. Reports of non-active lanes are ignored.
    pub fn burst_step(&mut self, in_radius: &Vec<bool>)
        requires
            old(self).wf(),
            in_radius@.len() == LANE_COUNT,
        ensures
            final(self).wf(),
            final(self).max_iterations == old(self).max_iterations,
            forall|i: int| 0 <= i < LANE_COUNT ==> final(self).lanes@[i] == burst_transition(
                old(self).lanes@[i],
                in_radius@[i],
                old(self).max_iterations,
            ),
    {
        let mut i: usize = 0;
        while i < LANE_COUNT
            invariant
                self.wf(),
                self.max_iterations == old(self).max_iterations,
                in_radius@.len() == LANE_COUNT,
                i <= LANE_COUNT,
                forall|j: int| 0 <= j < i ==> self.lanes@[j] == burst_transition(
                    old(self).lanes@[j],
                    in_radius@[j],
                    old(self).max_iterations,
                ),
                forall|j: int| i <= j < LANE_COUNT ==> self.lanes@[j] == old(self).lanes@[j],
            decreases LANE_COUNT - i,
        {
            let lane = self.lanes[i];
            match lane.state {
                LaneState::Active => {
                    if in_radius[i] && lane.count < self.max_iterations {
                        self.lanes[i] = Lane {
                            state: LaneState::Active,
                            point: lane.point,
                            count: lane.count + 1,
                        };
                    } else {
                        self.lanes[i] = Lane {
                            state: LaneState::Done,
                            point: lane.point,
                            count: lane.count,
                        };
                    }
                },
                _ => {},
            }
            i = i + 1;
        }
    }

    /// Take the result out of a finished lane and recycle the lane.
    pub fn harvest_lane(&mut self, i: usize) -> (result: (u64, u64))
        requires
            old(self).wf(),
            i < LANE_COUNT,
            old(self).lanes@[i as int].state is Done,
        ensures
            final(self).wf(),
            final(self).max_iterations == old(self).max_iterations,
            final(self).lanes@ == old(self).lanes@.update(i as int, empty_lane()),
            result.0 == old(self).lanes@[i as int].point,
            result.1 == old(self).lanes@[i as int].count,
    {
        let lane = self.lanes[i];
        self.lanes[i] = Lane { state: LaneState::Empty, point: 0, count: 0 };
        (lane.point, lane.count)
    }

    /// Is some lane still running a point?
    pub fn has_active(&self) -> (active: bool)
        requires
            self.wf(),
        ensures
            active == exists|i: int| 0 <= i < LANE_COUNT && self.lanes@[i].state is Active,
    {
        let mut i: usize = 0;
        let mut found: bool = false;
        while i < LANE_COUNT
            invariant
                self.wf(),
                i <= LANE_COUNT,
                found == exists|j: int| 0 <= j < i && self.lanes@[j].state is Active,
            decreases LANE_COUNT - i,
        {
            let lane = self.lanes[i];
            match lane.state {
                LaneState::Active => {
                    found = true;
                },
                _ => {},
            }
            i = i + 1;
        }
        found
    }

    /// Are all lanes empty? Together with an exhausted queue this is the
    /// termination condition of the evaluator.
    pub fn all_empty(&self) -> (empty: bool)
        requires
            self.wf(),
        ensures
            empty == forall|i: int| 0 <= i < LANE_COUNT ==> self.lanes@[i].state is Empty,
    {
        let mut i: usize = 0;
        let mut all: bool = true;
        while i < LANE_COUNT
            invariant
                self.wf(),
                i <= LANE_COUNT,
                all == forall|j: int| 0 <= j < i ==> self.lanes@[j].state is Empty,
            decreases LANE_COUNT - i,
        {
            let lane = self.lanes[i];
            match lane.state {
                LaneState::Empty => {},
                _ => {
                    all = false;
                },
            }
            i = i + 1;
        }
        all
    }
}

/// Every lane's claim is justified by the orbit reports: an active lane has
/// passed exactly its first `count` checks, and a done lane's count is that
/// point's escape count.
pub open spec fn lanes_ok(lanes: Seq<Lane>, orbits: Seq<Seq<bool>>, max_iterations: u64) -> bool {
    forall|i: int| 0 <= i < lanes.len() ==> lane_ok(#[trigger] lanes[i], orbits, max_iterations)
}

/// The claim of one lane; empty lanes claim nothing.
pub open spec fn lane_ok(lane: Lane, orbits: Seq<Seq<bool>>, max_iterations: u64) -> bool {
    match lane.state {
        LaneState::Empty => true,
        LaneState::Active => lane.point < orbits.len() && lane.count <= max_iterations && (forall|
            j: int,
        |
            0 <= j < lane.count ==> orbits[lane.point as int][j]),
        LaneState::Done => lane.point < orbits.len() && lane.count == escape_count(
            orbits[lane.point as int],
            max_iterations,
        ),
    }
}

/// The results the lanes will deliver: one pair (point, escape count) per
/// non-empty lane. For lanes that satisfy `lane_ok` this is exactly what
/// harvesting will emit.
pub open spec fn lane_pairs(lanes: Seq<Lane>, orbits: Seq<Seq<bool>>, max_iterations: u64) -> Multiset<
    (u64, u64),
>
    decreases lanes.len(),
{
    if lanes.len() == 0 {
        Multiset::empty()
    } else {
        lane_pairs(lanes.drop_last(), orbits, max_iterations).add(
            lane_contrib(lanes.last(), orbits, max_iterations),
        )
    }
}

/// One lane's share of `lane_pairs`.
pub open spec fn lane_contrib(lane: Lane, orbits: Seq<Seq<bool>>, max_iterations: u64) -> Multiset<
    (u64, u64),
> {
    if lane.state is Empty {
        Multiset::empty()
    } else {
        Multiset::empty().insert(
            (lane.point, escape_count(orbits[lane.point as int], max_iterations)),
        )
    }
}

/// How much work the lanes can still absorb before they are all empty:
/// an active lane needs up to `max - count` advances, one finishing step
/// and one harvest; a done lane needs one harvest. Refilling a lane costs
/// queue budget, not lane budget, so the total shrinks with every scheduler
/// move — the evaluator terminates.
pub open spec fn lane_fuel(lanes: Seq<Lane>, max_iterations: u64) -> int
    decreases lanes.len(),
{
    if lanes.len() == 0 {
        0
    } else {
        lane_fuel(lanes.drop_last(), max_iterations) + lane_cost(lanes.last(), max_iterations)
    }
}

/// One lane's share of `lane_fuel`.
pub open spec fn lane_cost(lane: Lane, max_iterations: u64) -> int {
    match lane.state {
        LaneState::Empty => 0,
        LaneState::Active => 2 * (max_iterations - lane.count) + 2,
        LaneState::Done => 1,
    }
}

/// Replacing one lane moves `lane_pairs` by the two lanes' contributions.
pub proof fn lemma_lane_pairs_update(
    lanes: Seq<Lane>,
    i: int,
    lane: Lane,
    orbits: Seq<Seq<bool>>,
    max_iterations: u64,
)
    requires
        0 <= i < lanes.len(),
    ensures
        lane_pairs(lanes.update(i, lane), orbits, max_iterations).add(
            lane_contrib(lanes[i], orbits, max_iterations),
        ) =~= lane_pairs(lanes, orbits, max_iterations).add(
            lane_contrib(lane, orbits, max_iterations),
        ),
    decreases lanes.len(),
{
    broadcast use vstd::multiset::group_multiset_axioms;

    let updated = lanes.update(i, lane);
    assert(updated.len() == lanes.len());
    if i == lanes.len() - 1 {
        assert(updated.drop_last() =~= lanes.drop_last());
        assert(updated.last() == lane);
        assert(lanes[i] == lanes.last());
        assert(lane_pairs(updated, orbits, max_iterations) == lane_pairs(
            lanes.drop_last(),
            orbits,
            max_iterations,
        ).add(lane_contrib(lane, orbits, max_iterations)));
        assert(lane_pairs(lanes, orbits, max_iterations) == lane_pairs(
            lanes.drop_last(),
            orbits,
            max_iterations,
        ).add(lane_contrib(lanes[i], orbits, max_iterations)));
        assert(lane_pairs(updated, orbits, max_iterations).add(
            lane_contrib(lanes[i], orbits, max_iterations),
        ) =~= lane_pairs(lanes, orbits, max_iterations).add(
            lane_contrib(lane, orbits, max_iterations),
        ));
    } else {
        lemma_lane_pairs_update(lanes.drop_last(), i, lane, orbits, max_iterations);
        assert(updated.drop_last() =~= lanes.drop_last().update(i, lane));
        assert(updated.last() == lanes.last());
        assert(lanes.drop_last()[i] == lanes[i]);
        assert(lane_pairs(updated, orbits, max_iterations) == lane_pairs(
            lanes.drop_last().update(i, lane),
            orbits,
            max_iterations,
        ).add(lane_contrib(lanes.last(), orbits, max_iterations)));
        assert(lane_pairs(lanes, orbits, max_iterations) == lane_pairs(
            lanes.drop_last(),
            orbits,
            max_iterations,
        ).add(lane_contrib(lanes.last(), orbits, max_iterations)));
        let sub_updated = lane_pairs(lanes.drop_last().update(i, lane), orbits, max_iterations);
        let sub = lane_pairs(lanes.drop_last(), orbits, max_iterations);
        let c_last = lane_contrib(lanes.last(), orbits, max_iterations);
        let c_old = lane_contrib(lanes[i], orbits, max_iterations);
        let c_new = lane_contrib(lane, orbits, max_iterations);
        assert forall|x: (u64, u64)|
            lane_pairs(updated, orbits, max_iterations).add(c_old).count(x) == lane_pairs(
                lanes,
                orbits,
                max_iterations,
            ).add(c_new).count(x) by {
            assert(sub_updated.add(c_old).count(x) == sub.add(c_new).count(x));
            assert(sub_updated.add(c_old).count(x) == sub_updated.count(x) + c_old.count(x));
            assert(sub.add(c_new).count(x) == sub.count(x) + c_new.count(x));
            assert(lane_pairs(updated, orbits, max_iterations).add(c_old).count(x)
                == sub_updated.add(c_last).count(x) + c_old.count(x));
            assert(sub_updated.add(c_last).count(x) == sub_updated.count(x) + c_last.count(x));
            assert(lane_pairs(lanes, orbits, max_iterations).add(c_new).count(x) == sub.add(
                c_last,
            ).count(x) + c_new.count(x));
            assert(sub.add(c_last).count(x) == sub.count(x) + c_last.count(x));
        }
        assert(lane_pairs(updated, orbits, max_iterations).add(
            lane_contrib(lanes[i], orbits, max_iterations),
        ) =~= lane_pairs(lanes, orbits, max_iterations).add(
            lane_contrib(lane, orbits, max_iterations),
        ));
    }
}

/// Replacing one lane moves `lane_fuel` by the two lanes' costs.
pub proof fn lemma_lane_fuel_update(lanes: Seq<Lane>, i: int, lane: Lane, max_iterations: u64)
    requires
        0 <= i < lanes.len(),
    ensures
        lane_fuel(lanes.update(i, lane), max_iterations) == lane_fuel(lanes, max_iterations)
            - lane_cost(lanes[i], max_iterations) + lane_cost(lane, max_iterations),
    decreases lanes.len(),
{
    if i == lanes.len() - 1 {
        assert(lanes.update(i, lane).drop_last() =~= lanes.drop_last());
        assert(lanes.update(i, lane).last() == lane);
    } else {
        lemma_lane_fuel_update(lanes.drop_last(), i, lane, max_iterations);
        assert(lanes.update(i, lane).drop_last() =~= lanes.drop_last().update(i, lane));
        assert(lanes.update(i, lane).last() == lanes.last());
    }
}

/// Lanes whose counts respect the cap never have negative fuel.
pub proof fn lemma_lane_fuel_nonnegative(lanes: Seq<Lane>, max_iterations: u64)
    requires
        forall|i: int|
            0 <= i < lanes.len() && (#[trigger] lanes[i]).state is Active ==> lanes[i].count
                <= max_iterations,
    ensures
        lane_fuel(lanes, max_iterations) >= 0,
    decreases lanes.len(),
{
    if lanes.len() > 0 {
        lemma_lane_fuel_nonnegative(lanes.drop_last(), max_iterations);
        assert(lanes[lanes.len() - 1] == lanes.last());
    }
}

/// If every lane is empty, no results and no fuel remain.
pub proof fn lemma_lane_pairs_all_empty(
    lanes: Seq<Lane>,
    orbits: Seq<Seq<bool>>,
    max_iterations: u64,
)
    requires
        forall|i: int| 0 <= i < lanes.len() ==> (#[trigger] lanes[i]).state is Empty,
    ensures
        lane_pairs(lanes, orbits, max_iterations) =~= Multiset::empty(),
        lane_fuel(lanes, max_iterations) == 0,
    decreases lanes.len(),
{
    broadcast use vstd::multiset::group_multiset_axioms;

    if lanes.len() > 0 {
        lemma_lane_pairs_all_empty(lanes.drop_last(), orbits, max_iterations);
        assert(lanes[lanes.len() - 1] == lanes.last());
    }
}

/// A burst iteration burns fuel: every active lane's cost strictly drops,
/// whether it advances or finishes, and no other lane changes.
pub proof fn lemma_burst_fuel(
    lanes1: Seq<Lane>,
    lanes2: Seq<Lane>,
    events: Seq<bool>,
    max_iterations: u64,
)
    requires
        lanes1.len() == lanes2.len(),
        forall|i: int|
            0 <= i < lanes1.len() ==> lanes2[i] == burst_transition(
                #[trigger] lanes1[i],
                events[i],
                max_iterations,
            ),
        forall|i: int|
            0 <= i < lanes1.len() && (#[trigger] lanes1[i]).state is Active ==> lanes1[i].count
                <= max_iterations,
    ensures
        lane_fuel(lanes2, max_iterations) <= lane_fuel(lanes1, max_iterations),
        (exists|i: int| 0 <= i < lanes1.len() && (#[trigger] lanes1[i]).state is Active)
            ==> lane_fuel(lanes2, max_iterations) < lane_fuel(lanes1, max_iterations),
    decreases lanes1.len(),
{
    if lanes1.len() > 0 {
        let n = lanes1.len() - 1;
        lemma_burst_fuel(lanes1.drop_last(), lanes2.drop_last(), events, max_iterations);
        assert(lanes1[n] == lanes1.last());
        assert(lanes2[n] == lanes2.last());
        assert(lane_cost(lanes2.last(), max_iterations) <= lane_cost(lanes1.last(), max_iterations));
        if exists|i: int| 0 <= i < lanes1.len() && (#[trigger] lanes1[i]).state is Active {
            let w = choose|i: int|
                0 <= i < lanes1.len() && (#[trigger] lanes1[i]).state is Active;
            if w == n {
                assert(lane_cost(lanes2.last(), max_iterations) < lane_cost(
                    lanes1.last(),
                    max_iterations,
                ));
            } else {
                assert(0 <= w < lanes1.drop_last().len() && lanes1.drop_last()[w].state
                    is Active);
            }
        }
    }
}

/// A burst iteration never changes what the lanes will deliver: advancing
/// keeps a lane's point, and finishing freezes a count that `lane_ok`
/// already pins to the point's escape count.
pub proof fn lemma_lane_pairs_pointwise(
    lanes1: Seq<Lane>,
    lanes2: Seq<Lane>,
    orbits: Seq<Seq<bool>>,
    max_iterations: u64,
)
    requires
        lanes1.len() == lanes2.len(),
        forall|i: int|
            0 <= i < lanes1.len() ==> lane_contrib(#[trigger] lanes1[i], orbits, max_iterations)
                == lane_contrib(lanes2[i], orbits, max_iterations),
    ensures
        lane_pairs(lanes1, orbits, max_iterations) =~= lane_pairs(lanes2, orbits, max_iterations),
    decreases lanes1.len(),
{
    broadcast use vstd::multiset::group_multiset_axioms;

    if lanes1.len() > 0 {
        lemma_lane_pairs_pointwise(lanes1.drop_last(), lanes2.drop_last(), orbits, max_iterations);
        assert(lanes1[lanes1.len() - 1] == lanes1.last());
        assert(lanes2[lanes2.len() - 1] == lanes2.last());
    }
}

} // verus!
