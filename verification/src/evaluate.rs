//! The evaluators: sequential and vectorised evaluation of a whole run.
//!
//! A run over `n` sample points is described by its report table: row `p`
//! holds the radius reports of point `p`'s orbit (the caller computes the
//! orbits and the checks |z_k|^2 <= 4; see the escape module). Every
//! evaluator must deliver the same result set — one (point, escape count)
//! pair per sampled point — and that is what is proved here: the scalar
//! evaluator delivers it in sampling order, the lane-recycling vector
//! evaluator and its multi-worker variant deliver it as a multiset.

use vstd::prelude::*;

verus! {

use vstd::multiset::Multiset;
use vstd::seq_lib::lemma_multiset_commutative;
use crate::escape::escape_count;
use crate::escape::lemma_escape_count_determined;
use crate::escape::scalar_count;
use crate::vector::empty_lane;
use crate::queue::PointQueue;
use crate::vector::BURST_LENGTH;
use crate::vector::LANE_COUNT;
use crate::vector::Lane;
use crate::vector::LaneState;
use crate::vector::VectorScheduler;
use crate::vector::burst_transition;
use crate::vector::filled_lane;
use crate::vector::lane_contrib;
use crate::vector::lane_fuel;
use crate::vector::lane_ok;
use crate::vector::lane_pairs;
use crate::vector::lanes_ok;
use crate::vector::lemma_burst_fuel;
use crate::vector::lemma_lane_fuel_nonnegative;
use crate::vector::lemma_lane_fuel_update;
use crate::vector::lemma_lane_pairs_all_empty;
use crate::vector::lemma_lane_pairs_pointwise;
use crate::vector::lemma_lane_pairs_update;

/// The rows of a report table, as sequences.
pub open spec fn orbit_seqs(orbits: Seq<Vec<bool>>) -> Seq<Seq<bool>> {
    orbits.map_values(|row: Vec<bool>| row@)
}

/// A usable report table: every row covers the full iteration cap.
pub open spec fn table_ok(orbits: Seq<Vec<bool>>, max_iterations: u64) -> bool {
    forall|p: int| 0 <= p < orbits.len() ==> (#[trigger] orbits[p])@.len() >= max_iterations
}

/// What every evaluator owes: point `p` paired with its escape count, in
/// sampling order.
pub open spec fn expected_pairs(orbits: Seq<Seq<bool>>, max_iterations: u64) -> Seq<(u64, u64)> {
    Seq::new(orbits.len(), |p: int| (p as u64, escape_count(orbits[p], max_iterations)))
}

/// The results still owed by the points not yet handed out: the expected
/// pairs of points `next`, `next + 1`, ... as a multiset.
pub open spec fn pending_pairs(
    orbits: Seq<Seq<bool>>,
    max_iterations: u64,
    next: int,
) -> Multiset<(u64, u64)>
    decreases orbits.len() - next,
{
    if next < 0 || next >= orbits.len() {
        Multiset::empty()
    } else {
        pending_pairs(orbits, max_iterations, next + 1).insert(
            (next as u64, escape_count(orbits[next], max_iterations)),
        )
    }
}

/// The pending pairs from `next` on are the expected pairs of the suffix.
pub proof fn lemma_pending_pairs_suffix(orbits: Seq<Seq<bool>>, max_iterations: u64, next: int)
    requires
        0 <= next <= orbits.len(),
    ensures
        pending_pairs(orbits, max_iterations, next) =~= expected_pairs(
            orbits,
            max_iterations,
        ).skip(next).to_multiset(),
    decreases orbits.len() - next,
{
    broadcast use vstd::multiset::group_multiset_axioms;
    broadcast use vstd::seq_lib::group_to_multiset_ensures;

    let expected = expected_pairs(orbits, max_iterations);
    if next == orbits.len() {
        assert(expected.skip(next) =~= Seq::<(u64, u64)>::empty());
        assert(Seq::<(u64, u64)>::empty().to_multiset().len() == 0);
        assert(Seq::<(u64, u64)>::empty().to_multiset() =~= Multiset::empty());
    } else {
        lemma_pending_pairs_suffix(orbits, max_iterations, next + 1);
        let head = expected[next];
        assert(expected.skip(next) =~= seq![head] + expected.skip(next + 1));
        lemma_multiset_commutative(seq![head], expected.skip(next + 1));
        assert(seq![head] =~= Seq::<(u64, u64)>::empty().push(head));
        assert(seq![head].to_multiset() =~= Seq::<(u64, u64)>::empty().to_multiset().insert(head));
        assert(Seq::<(u64, u64)>::empty().to_multiset().len() == 0);
        assert(Seq::<(u64, u64)>::empty().to_multiset() =~= Multiset::empty());
        assert(expected.skip(next).to_multiset() =~= expected.skip(next + 1).to_multiset().insert(
            head,
        ));
    }
}

/// The pending pairs of a fresh queue are the whole expected result set.
pub proof fn lemma_pending_pairs_full(orbits: Seq<Seq<bool>>, max_iterations: u64)
    ensures
        pending_pairs(orbits, max_iterations, 0) =~= expected_pairs(
            orbits,
            max_iterations,
        ).to_multiset(),
{
    lemma_pending_pairs_suffix(orbits, max_iterations, 0);
    assert(expected_pairs(orbits, max_iterations).skip(0) =~= expected_pairs(
        orbits,
        max_iterations,
    ));
}

/// How far one evaluator still is from done: queued points are weighted by
/// the full cost a lane can spend on them, so handing a point to a lane,
/// advancing, finishing and harvesting all shrink the measure. The
/// evaluator's outer loop terminates because this never stops falling.
pub open spec fn run_measure(queue: PointQueue, lanes: Seq<Lane>, max_iterations: u64) -> int {
    (queue.total - queue.next) * (2 * (max_iterations as int) + 3) + lane_fuel(
        lanes,
        max_iterations,
    )
}

/// The refill phase of one outer scheduler step: hand the next queued
/// point to every empty lane until the queue runs dry. Afterwards an empty
/// lane can only mean an exhausted queue.
fn refill_lanes(
    scheduler: &mut VectorScheduler,
    queue: &mut PointQueue,
    Ghost(orbits): Ghost<Seq<Seq<bool>>>,
) -> (filled: bool)
    requires
        old(scheduler).wf(),
        old(queue).wf(),
        old(queue).total == orbits.len(),
        lanes_ok(old(scheduler).lanes@, orbits, old(scheduler).max_iterations),
    ensures
        final(scheduler).wf(),
        final(queue).wf(),
        final(scheduler).max_iterations == old(scheduler).max_iterations,
        final(queue).total == old(queue).total,
        final(queue).next >= old(queue).next,
        lanes_ok(final(scheduler).lanes@, orbits, old(scheduler).max_iterations),
        lane_pairs(final(scheduler).lanes@, orbits, old(scheduler).max_iterations).add(
            pending_pairs(orbits, old(scheduler).max_iterations, final(queue).next as int),
        ) =~= lane_pairs(old(scheduler).lanes@, orbits, old(scheduler).max_iterations).add(
            pending_pairs(orbits, old(scheduler).max_iterations, old(queue).next as int),
        ),
        run_measure(*final(queue), final(scheduler).lanes@, old(scheduler).max_iterations)
            <= run_measure(*old(queue), old(scheduler).lanes@, old(scheduler).max_iterations),
        filled ==> run_measure(*final(queue), final(scheduler).lanes@, old(scheduler).max_iterations)
            < run_measure(*old(queue), old(scheduler).lanes@, old(scheduler).max_iterations),
        !filled ==> final(scheduler).lanes@ == old(scheduler).lanes@ && final(queue).next
            == old(queue).next,
        forall|i: int|
            0 <= i < LANE_COUNT && final(scheduler).lanes@[i].state is Empty
                ==> final(queue).next == final(queue).total,
{
    let ghost max_iterations = old(scheduler).max_iterations;
    let ghost lanes0 = old(scheduler).lanes@;
    let ghost next0 = old(queue).next;
    let mut filled: bool = false;
    let mut i: usize = 0;
    while i < LANE_COUNT
        invariant
            scheduler.wf(),
            queue.wf(),
            scheduler.max_iterations == max_iterations,
            queue.total == orbits.len(),
            queue.total == old(queue).total,
            lanes0 == old(scheduler).lanes@,
            next0 == old(queue).next,
            queue.next >= next0,
            i <= LANE_COUNT,
            lanes_ok(scheduler.lanes@, orbits, max_iterations),
            forall|j: int| i <= j < LANE_COUNT ==> scheduler.lanes@[j] == lanes0[j],
            forall|j: int|
                0 <= j < i && scheduler.lanes@[j].state is Empty ==> queue.next == queue.total,
            lane_pairs(scheduler.lanes@, orbits, max_iterations).add(
                pending_pairs(orbits, max_iterations, queue.next as int),
            ) =~= lane_pairs(lanes0, orbits, max_iterations).add(
                pending_pairs(orbits, max_iterations, next0 as int),
            ),
            run_measure(*queue, scheduler.lanes@, max_iterations) <= run_measure(
                *old(queue),
                lanes0,
                max_iterations,
            ),
            filled ==> run_measure(*queue, scheduler.lanes@, max_iterations) < run_measure(
                *old(queue),
                lanes0,
                max_iterations,
            ),
            !filled ==> scheduler.lanes@ == lanes0 && queue.next == next0,
        decreases LANE_COUNT - i,
    {
        let lane = scheduler.lane(i);
        match lane.state {
            LaneState::Empty => {
                let ghost lanes_before = scheduler.lanes@;
                let ghost next_before = queue.next;
                match queue.pop() {
                    Some(point) => {
                        scheduler.fill_lane(i, point);
                        filled = true;
                        proof {
                            broadcast use vstd::multiset::group_multiset_axioms;
                            broadcast use vstd::multiset::group_multiset_properties;

                            lemma_lane_pairs_update(
                                lanes_before,
                                i as int,
                                filled_lane(point),
                                orbits,
                                max_iterations,
                            );
                            lemma_lane_fuel_update(
                                lanes_before,
                                i as int,
                                filled_lane(point),
                                max_iterations,
                            );
                            assert(pending_pairs(orbits, max_iterations, next_before as int)
                                == pending_pairs(
                                orbits,
                                max_iterations,
                                next_before as int + 1,
                            ).insert((point, escape_count(orbits[next_before as int], max_iterations))));
                            assert(scheduler.lanes@ == lanes_before.update(
                                i as int,
                                filled_lane(point),
                            ));
                            assert(lane_contrib(lanes_before[i as int], orbits, max_iterations)
                                =~= Multiset::<(u64, u64)>::empty());
                            assert(lane_pairs(scheduler.lanes@, orbits, max_iterations).add(
                                lane_contrib(lanes_before[i as int], orbits, max_iterations),
                            ) =~= lane_pairs(lanes_before, orbits, max_iterations).add(
                                lane_contrib(filled_lane(point), orbits, max_iterations),
                            ));
                            assert(point == next_before);
                            assert(queue.next as int == next_before as int + 1);
                            let ghost new_pairs = lane_pairs(
                                scheduler.lanes@,
                                orbits,
                                max_iterations,
                            );
                            let ghost before_pairs = lane_pairs(lanes_before, orbits, max_iterations);
                            let ghost popped = (
                                point,
                                escape_count(orbits[point as int], max_iterations),
                            );
                            let ghost still_pending = pending_pairs(
                                orbits,
                                max_iterations,
                                queue.next as int,
                            );
                            assert forall|x: (u64, u64)|
                                new_pairs.add(still_pending).count(x) == before_pairs.add(
                                    pending_pairs(orbits, max_iterations, next_before as int),
                                ).count(x) by {
                                let s1 = new_pairs.add(
                                    lane_contrib(lanes_before[i as int], orbits, max_iterations),
                                );
                                let s2 = before_pairs.add(
                                    lane_contrib(filled_lane(point), orbits, max_iterations),
                                );
                                assert(s1.count(x) == s2.count(x));
                                assert(s1.count(x) == new_pairs.count(x) + lane_contrib(
                                    lanes_before[i as int],
                                    orbits,
                                    max_iterations,
                                ).count(x));
                                assert(s2.count(x) == before_pairs.count(x) + lane_contrib(
                                    filled_lane(point),
                                    orbits,
                                    max_iterations,
                                ).count(x));
                                assert(lane_contrib(lanes_before[i as int], orbits, max_iterations)
                                    .count(x) == 0);
                                assert(lane_contrib(filled_lane(point), orbits, max_iterations)
                                    .count(x) == Multiset::<(u64, u64)>::empty().insert(
                                    popped,
                                ).count(x));
                                assert(Multiset::<(u64, u64)>::empty().insert(popped).count(x)
                                    == if x == popped { 1int } else { 0int });
                                assert(pending_pairs(orbits, max_iterations, next_before as int)
                                    .count(x) == still_pending.insert(popped).count(x));
                                assert(still_pending.insert(popped).count(x)
                                    == still_pending.count(x) + if x == popped { 1int } else { 0int });
                                assert(new_pairs.add(still_pending).count(x) == new_pairs.count(x)
                                    + still_pending.count(x));
                                assert(before_pairs.add(
                                    pending_pairs(orbits, max_iterations, next_before as int),
                                ).count(x) == before_pairs.count(x) + pending_pairs(
                                    orbits,
                                    max_iterations,
                                    next_before as int,
                                ).count(x));
                            }
                            assert(lane_pairs(scheduler.lanes@, orbits, max_iterations).add(
                                pending_pairs(orbits, max_iterations, queue.next as int),
                            ) =~= lane_pairs(lanes_before, orbits, max_iterations).add(
                                pending_pairs(orbits, max_iterations, next_before as int),
                            ));
                            assert forall|j: int|
                                0 <= j < scheduler.lanes@.len() implies lane_ok(
                                #[trigger] scheduler.lanes@[j],
                                orbits,
                                max_iterations,
                            ) by {
                                if j != i {
                                    assert(scheduler.lanes@[j] == lanes_before[j]);
                                }
                            }
                            assert((queue.total - queue.next) * (2 * (max_iterations as int) + 3)
                                == (queue.total - next_before) * (2 * (max_iterations as int) + 3)
                                - (2 * (max_iterations as int) + 3)) by (nonlinear_arith)
                                requires queue.next == next_before + 1;
                        }
                    },
                    None => {},
                }
            },
            _ => {},
        }
        i = i + 1;
    }
    filled
}

/// The radius report the driver hands lane `i`: the point's own report at
/// the lane's current count for a running lane, `false` (ignored)
/// otherwise.
pub open spec fn lane_event(lane: Lane, orbits: Seq<Seq<bool>>, max_iterations: u64) -> bool {
    lane.state is Active && lane.count < max_iterations && orbits[lane.point as int][lane.count as int]
}

/// The burst phase of one outer scheduler step: up to `BURST_LENGTH`
/// vector iterations, ending early once no lane is still running. Every
/// active lane burns fuel, and what the lanes will deliver is unchanged.
fn burst_lanes(scheduler: &mut VectorScheduler, orbits: &Vec<Vec<bool>>)
    requires
        old(scheduler).wf(),
        table_ok(orbits@, old(scheduler).max_iterations),
        lanes_ok(old(scheduler).lanes@, orbit_seqs(orbits@), old(scheduler).max_iterations),
    ensures
        final(scheduler).wf(),
        final(scheduler).max_iterations == old(scheduler).max_iterations,
        lanes_ok(final(scheduler).lanes@, orbit_seqs(orbits@), old(scheduler).max_iterations),
        lane_pairs(final(scheduler).lanes@, orbit_seqs(orbits@), old(scheduler).max_iterations)
            =~= lane_pairs(
            old(scheduler).lanes@,
            orbit_seqs(orbits@),
            old(scheduler).max_iterations,
        ),
        lane_fuel(final(scheduler).lanes@, old(scheduler).max_iterations) <= lane_fuel(
            old(scheduler).lanes@,
            old(scheduler).max_iterations,
        ),
        (exists|i: int| 0 <= i < LANE_COUNT && old(scheduler).lanes@[i].state is Active)
            ==> lane_fuel(final(scheduler).lanes@, old(scheduler).max_iterations) < lane_fuel(
            old(scheduler).lanes@,
            old(scheduler).max_iterations,
        ),
        !(exists|i: int| 0 <= i < LANE_COUNT && old(scheduler).lanes@[i].state is Active)
            ==> final(scheduler).lanes@ == old(scheduler).lanes@,
{
    let ghost gorbits = orbit_seqs(orbits@);
    let ghost max_iterations = old(scheduler).max_iterations;
    let ghost lanes0 = old(scheduler).lanes@;
    let ghost fuel0 = lane_fuel(lanes0, max_iterations);
    let had_active = scheduler.has_active();
    if !had_active {
        return ;
    }
    let mut b: u64 = 0;
    while b < BURST_LENGTH
        invariant_except_break
            exists|i: int| 0 <= i < LANE_COUNT && scheduler.lanes@[i].state is Active,
        invariant
            scheduler.wf(),
            scheduler.max_iterations == max_iterations,
            table_ok(orbits@, max_iterations),
            gorbits == orbit_seqs(orbits@),
            lanes0.len() == LANE_COUNT,
            fuel0 == lane_fuel(lanes0, max_iterations),
            lanes_ok(scheduler.lanes@, gorbits, max_iterations),
            lane_pairs(scheduler.lanes@, gorbits, max_iterations) =~= lane_pairs(
                lanes0,
                gorbits,
                max_iterations,
            ),
            lane_fuel(scheduler.lanes@, max_iterations) <= fuel0,
            b >= 1 ==> lane_fuel(scheduler.lanes@, max_iterations) < fuel0,
        ensures
            scheduler.wf(),
            scheduler.max_iterations == max_iterations,
            lanes_ok(scheduler.lanes@, gorbits, max_iterations),
            lane_pairs(scheduler.lanes@, gorbits, max_iterations) =~= lane_pairs(
                lanes0,
                gorbits,
                max_iterations,
            ),
            lane_fuel(scheduler.lanes@, max_iterations) < fuel0,
        decreases BURST_LENGTH - b,
    {
        let mut events: Vec<bool> = Vec::new();
        let mut i: usize = 0;
        while i < LANE_COUNT
            invariant
                scheduler.wf(),
                scheduler.max_iterations == max_iterations,
                table_ok(orbits@, max_iterations),
                gorbits == orbit_seqs(orbits@),
                lanes_ok(scheduler.lanes@, gorbits, max_iterations),
                i <= LANE_COUNT,
                events@.len() == i,
                forall|j: int|
                    0 <= j < i ==> events@[j] == lane_event(
                        scheduler.lanes@[j],
                        gorbits,
                        max_iterations,
                    ),
            decreases LANE_COUNT - i,
        {
            let lane = scheduler.lane(i);
            let event = match lane.state {
                LaneState::Active => {
                    if lane.count < scheduler.max_iterations {
                        let table_len = orbits.len();
                        proof {
                            assert(lane_ok(lane, gorbits, max_iterations));
                            assert(gorbits.len() == orbits@.len());
                            assert(lane.point < table_len);
                            assert(gorbits[lane.point as int] == orbits@[lane.point as int]@);
                            assert(orbits@[lane.point as int]@.len() >= max_iterations);
                        }
                        let row = &orbits[lane.point as usize];
                        let row_len = row.len();
                        proof {
                            assert(row@ == orbits@[lane.point as int]@);
                            assert(lane.count < row_len);
                        }
                        row[lane.count as usize]
                    } else {
                        false
                    }
                },
                _ => false,
            };
            proof {
                assert(event == lane_event(lane, gorbits, max_iterations));
            }
            events.push(event);
            i = i + 1;
        }
        let ghost lanes_before = scheduler.lanes@;
        scheduler.burst_step(&events);
        b = b + 1;
        proof {
            assert forall|j: int| 0 <= j < scheduler.lanes@.len() implies lane_ok(
                #[trigger] scheduler.lanes@[j],
                gorbits,
                max_iterations,
            ) by {
                let before = lanes_before[j];
                assert(scheduler.lanes@[j] == burst_transition(
                    before,
                    events@[j],
                    max_iterations,
                ));
                assert(lane_ok(before, gorbits, max_iterations));
                if before.state is Active {
                    if events@[j] && before.count < max_iterations {
                        assert(gorbits[before.point as int][before.count as int]);
                    } else {
                        if !events@[j] && before.count < max_iterations {
                            assert(!gorbits[before.point as int][before.count as int]);
                        }
                        lemma_escape_count_determined(
                            gorbits[before.point as int],
                            max_iterations,
                            before.count,
                        );
                    }
                }
            }
            assert forall|j: int|
                0 <= j < scheduler.lanes@.len() implies lane_contrib(
                #[trigger] scheduler.lanes@[j],
                gorbits,
                max_iterations,
            ) == lane_contrib(lanes_before[j], gorbits, max_iterations) by {
                assert(scheduler.lanes@[j] == burst_transition(
                    lanes_before[j],
                    events@[j],
                    max_iterations,
                ));
            }
            lemma_lane_pairs_pointwise(scheduler.lanes@, lanes_before, gorbits, max_iterations);
            lemma_burst_fuel(lanes_before, scheduler.lanes@, events@, max_iterations);
        }
        if !scheduler.has_active() {
            break ;
        }
    }
}

/// The harvest phase of one outer scheduler step: take the result out of
/// every finished lane, append it to the output, and recycle the lane.
fn harvest_lanes(
    scheduler: &mut VectorScheduler,
    results: &mut Vec<(u64, u64)>,
    Ghost(orbits): Ghost<Seq<Seq<bool>>>,
) -> (harvested: bool)
    requires
        old(scheduler).wf(),
        lanes_ok(old(scheduler).lanes@, orbits, old(scheduler).max_iterations),
    ensures
        final(scheduler).wf(),
        final(scheduler).max_iterations == old(scheduler).max_iterations,
        lanes_ok(final(scheduler).lanes@, orbits, old(scheduler).max_iterations),
        final(results)@.to_multiset().add(
            lane_pairs(final(scheduler).lanes@, orbits, old(scheduler).max_iterations),
        ) =~= old(results)@.to_multiset().add(
            lane_pairs(old(scheduler).lanes@, orbits, old(scheduler).max_iterations),
        ),
        lane_fuel(final(scheduler).lanes@, old(scheduler).max_iterations) <= lane_fuel(
            old(scheduler).lanes@,
            old(scheduler).max_iterations,
        ),
        harvested ==> lane_fuel(final(scheduler).lanes@, old(scheduler).max_iterations)
            < lane_fuel(old(scheduler).lanes@, old(scheduler).max_iterations),
        !harvested ==> final(scheduler).lanes@ == old(scheduler).lanes@ && final(results)@
            == old(results)@,
        (exists|i: int| 0 <= i < LANE_COUNT && old(scheduler).lanes@[i].state is Done)
            ==> harvested,
{
    let ghost max_iterations = old(scheduler).max_iterations;
    let ghost lanes0 = old(scheduler).lanes@;
    let ghost results0 = old(results)@;
    let mut harvested: bool = false;
    let mut i: usize = 0;
    while i < LANE_COUNT
        invariant
            scheduler.wf(),
            scheduler.max_iterations == max_iterations,
            lanes0.len() == LANE_COUNT,
            lanes0 == old(scheduler).lanes@,
            results0 == old(results)@,
            i <= LANE_COUNT,
            lanes_ok(scheduler.lanes@, orbits, max_iterations),
            results@.to_multiset().add(lane_pairs(scheduler.lanes@, orbits, max_iterations))
                =~= results0.to_multiset().add(lane_pairs(lanes0, orbits, max_iterations)),
            lane_fuel(scheduler.lanes@, max_iterations) <= lane_fuel(lanes0, max_iterations),
            harvested ==> lane_fuel(scheduler.lanes@, max_iterations) < lane_fuel(
                lanes0,
                max_iterations,
            ),
            !harvested ==> scheduler.lanes@ == lanes0 && results@ == results0 && (forall|j: int|
                0 <= j < i ==> !((#[trigger] lanes0[j]).state is Done)),
        decreases LANE_COUNT - i,
    {
        let lane = scheduler.lane(i);
        match lane.state {
            LaneState::Done => {
                let ghost lanes_before = scheduler.lanes@;
                let ghost results_before = results@;
                let emitted = scheduler.harvest_lane(i);
                results.push(emitted);
                harvested = true;
                proof {
                    broadcast use vstd::multiset::group_multiset_axioms;
                    broadcast use vstd::multiset::group_multiset_properties;
                    broadcast use vstd::seq_lib::group_to_multiset_ensures;

                    lemma_lane_pairs_update(
                        lanes_before,
                        i as int,
                        empty_lane(),
                        orbits,
                        max_iterations,
                    );
                    lemma_lane_fuel_update(
                        lanes_before,
                        i as int,
                        empty_lane(),
                        max_iterations,
                    );
                    assert(lane_ok(lanes_before[i as int], orbits, max_iterations));
                    assert(emitted == (
                        lanes_before[i as int].point,
                        escape_count(
                            orbits[lanes_before[i as int].point as int],
                            max_iterations,
                        ),
                    ));
                    assert(results@ == results_before.push(emitted));
                    let ghost new_pairs = lane_pairs(scheduler.lanes@, orbits, max_iterations);
                    let ghost before_pairs = lane_pairs(lanes_before, orbits, max_iterations);
                    assert forall|x: (u64, u64)|
                        results@.to_multiset().add(new_pairs).count(x)
                            == results_before.to_multiset().add(before_pairs).count(x) by {
                        let s1 = new_pairs.add(
                            lane_contrib(lanes_before[i as int], orbits, max_iterations),
                        );
                        let s2 = before_pairs.add(
                            lane_contrib(empty_lane(), orbits, max_iterations),
                        );
                        assert(s1.count(x) == s2.count(x));
                        assert(s1.count(x) == new_pairs.count(x) + lane_contrib(
                            lanes_before[i as int],
                            orbits,
                            max_iterations,
                        ).count(x));
                        assert(s2.count(x) == before_pairs.count(x) + lane_contrib(
                            empty_lane(),
                            orbits,
                            max_iterations,
                        ).count(x));
                        assert(lane_contrib(empty_lane(), orbits, max_iterations).count(x) == 0);
                        assert(lane_contrib(lanes_before[i as int], orbits, max_iterations)
                            .count(x) == Multiset::<(u64, u64)>::empty().insert(
                            emitted,
                        ).count(x));
                        assert(Multiset::<(u64, u64)>::empty().insert(emitted).count(x)
                            == if x == emitted { 1int } else { 0int });
                        assert(results@.to_multiset() == results_before.to_multiset().insert(
                            emitted,
                        ));
                        assert(results_before.to_multiset().insert(emitted).count(x)
                            == results_before.to_multiset().count(x) + if x == emitted {
                            1int
                        } else {
                            0int
                        });
                        assert(results@.to_multiset().add(new_pairs).count(x)
                            == results@.to_multiset().count(x) + new_pairs.count(x));
                        assert(results_before.to_multiset().add(before_pairs).count(x)
                            == results_before.to_multiset().count(x) + before_pairs.count(x));
                    }
                    assert(results@.to_multiset().add(
                        lane_pairs(scheduler.lanes@, orbits, max_iterations),
                    ) =~= results_before.to_multiset().add(
                        lane_pairs(lanes_before, orbits, max_iterations),
                    ));
                }
            },
            _ => {},
        }
        i = i + 1;
    }
    harvested
}

/// The sequential evaluator: apply the escape loop to every point of the
/// table, in sampling order. The baseline the other evaluators are held to.
pub fn scalar_counts(orbits: &Vec<Vec<bool>>, max_iterations: u64) -> (results: Vec<(u64, u64)>)
    requires
        table_ok(orbits@, max_iterations),
    ensures
        results@ == expected_pairs(orbit_seqs(orbits@), max_iterations),
        results@.len() == orbits@.len(),
{
    let expected = Ghost(expected_pairs(orbit_seqs(orbits@), max_iterations));
    let mut results: Vec<(u64, u64)> = Vec::new();
    let mut p: usize = 0;
    while p < orbits.len()
        invariant
            table_ok(orbits@, max_iterations),
            expected@ == expected_pairs(orbit_seqs(orbits@), max_iterations),
            p <= orbits@.len(),
            results@.len() == p,
            forall|q: int| 0 <= q < p ==> results@[q] == expected@[q],
        decreases orbits@.len() - p,
    {
        let count = scalar_count(&orbits[p], max_iterations);
        results.push((p as u64, count));
        p = p + 1;
    }
    proof {
        assert(results@ =~= expected@);
    }
    results
}

/// One outer step of a vectorised worker: refill from the shared queue,
/// and — unless everything is empty and the queue dry, in which case the
/// worker is done — run a burst and harvest the finished lanes. Whatever
/// other workers do between two steps, each step keeps the books: emitted
/// results, results held in lanes, and results owed by the queue together
/// stay the same multiset.
fn worker_step(
    scheduler: &mut VectorScheduler,
    queue: &mut PointQueue,
    results: &mut Vec<(u64, u64)>,
    orbits: &Vec<Vec<bool>>,
    Ghost(gorbits): Ghost<Seq<Seq<bool>>>,
) -> (worker_done: bool)
    requires
        old(scheduler).wf(),
        old(queue).wf(),
        old(queue).total == gorbits.len(),
        gorbits == orbit_seqs(orbits@),
        table_ok(orbits@, old(scheduler).max_iterations),
        lanes_ok(old(scheduler).lanes@, gorbits, old(scheduler).max_iterations),
    ensures
        final(scheduler).wf(),
        final(queue).wf(),
        final(scheduler).max_iterations == old(scheduler).max_iterations,
        final(queue).total == old(queue).total,
        final(queue).next >= old(queue).next,
        lanes_ok(final(scheduler).lanes@, gorbits, old(scheduler).max_iterations),
        final(results)@.to_multiset().add(
            lane_pairs(final(scheduler).lanes@, gorbits, old(scheduler).max_iterations),
        ).add(
            pending_pairs(gorbits, old(scheduler).max_iterations, final(queue).next as int),
        ) =~= old(results)@.to_multiset().add(
            lane_pairs(old(scheduler).lanes@, gorbits, old(scheduler).max_iterations),
        ).add(pending_pairs(gorbits, old(scheduler).max_iterations, old(queue).next as int)),
        run_measure(*final(queue), final(scheduler).lanes@, old(scheduler).max_iterations)
            <= run_measure(*old(queue), old(scheduler).lanes@, old(scheduler).max_iterations),
        run_measure(*final(queue), final(scheduler).lanes@, old(scheduler).max_iterations) >= 0,
        worker_done ==> forall|i: int|
            0 <= i < LANE_COUNT ==> final(scheduler).lanes@[i].state is Empty,
        worker_done ==> final(queue).next == final(queue).total,
        worker_done ==> final(results)@ == old(results)@,
        !worker_done ==> run_measure(
            *final(queue),
            final(scheduler).lanes@,
            old(scheduler).max_iterations,
        ) < run_measure(*old(queue), old(scheduler).lanes@, old(scheduler).max_iterations),
{
    broadcast use vstd::seq_lib::group_to_multiset_ensures;
    broadcast use vstd::multiset::group_multiset_axioms;

    let ghost max_iterations = old(scheduler).max_iterations;
    let ghost lanes_entry = old(scheduler).lanes@;
    let ghost next_entry = old(queue).next;
    let ghost results_entry = old(results)@;
    let filled = refill_lanes(scheduler, queue, Ghost(gorbits));
    let ghost lanes_refilled = scheduler.lanes@;
    proof {
        assert forall|x: (u64, u64)|
            results@.to_multiset().add(
                lane_pairs(lanes_refilled, gorbits, max_iterations),
            ).add(pending_pairs(gorbits, max_iterations, queue.next as int)).count(x)
                == results_entry.to_multiset().add(
                lane_pairs(lanes_entry, gorbits, max_iterations),
            ).add(pending_pairs(gorbits, max_iterations, next_entry as int)).count(x) by {
            let refilled_sum = lane_pairs(lanes_refilled, gorbits, max_iterations).add(
                pending_pairs(gorbits, max_iterations, queue.next as int),
            );
            let entry_sum = lane_pairs(lanes_entry, gorbits, max_iterations).add(
                pending_pairs(gorbits, max_iterations, next_entry as int),
            );
            assert(refilled_sum.count(x) == entry_sum.count(x));
        }
        assert(results@.to_multiset().add(
            lane_pairs(lanes_refilled, gorbits, max_iterations),
        ).add(pending_pairs(gorbits, max_iterations, queue.next as int)) =~= results_entry
            .to_multiset().add(lane_pairs(lanes_entry, gorbits, max_iterations)).add(
            pending_pairs(gorbits, max_iterations, next_entry as int),
        ));
        assert forall|j: int|
            0 <= j < scheduler.lanes@.len() && (#[trigger] scheduler.lanes@[j]).state
                is Active implies scheduler.lanes@[j].count <= max_iterations by {
            assert(lane_ok(scheduler.lanes@[j], gorbits, max_iterations));
        }
        lemma_lane_fuel_nonnegative(scheduler.lanes@, max_iterations);
        assert((queue.total - queue.next) * (2 * (max_iterations as int) + 3) >= 0)
            by (nonlinear_arith)
            requires queue.next <= queue.total;
    }
    if scheduler.all_empty() {
        proof {
            assert(scheduler.lanes@[0].state is Empty);
            assert(queue.next == queue.total);
        }
        return true;
    }
    burst_lanes(scheduler, orbits);
    let ghost lanes_burst = scheduler.lanes@;
    let harvested = harvest_lanes(scheduler, results, Ghost(gorbits));
    proof {
        // the burst did not change what the lanes deliver, and the harvest
        // moved deliveries into the output: the books balance
        assert(lane_pairs(lanes_burst, gorbits, max_iterations) == lane_pairs(
            lanes_refilled,
            gorbits,
            max_iterations,
        ));
        let ghost still_pending = pending_pairs(gorbits, max_iterations, queue.next as int);
        assert forall|x: (u64, u64)|
            results@.to_multiset().add(
                lane_pairs(scheduler.lanes@, gorbits, max_iterations),
            ).add(still_pending).count(x) == results_entry.to_multiset().add(
                lane_pairs(lanes_refilled, gorbits, max_iterations),
            ).add(still_pending).count(x) by {
            let now_sum = results@.to_multiset().add(
                lane_pairs(scheduler.lanes@, gorbits, max_iterations),
            );
            let mid_sum = results_entry.to_multiset().add(
                lane_pairs(lanes_burst, gorbits, max_iterations),
            );
            assert(now_sum.count(x) == mid_sum.count(x));
            assert(now_sum.add(still_pending).count(x) == now_sum.count(x)
                + still_pending.count(x));
            assert(mid_sum.add(still_pending).count(x) == mid_sum.count(x)
                + still_pending.count(x));
            assert(results_entry.to_multiset().add(
                lane_pairs(lanes_refilled, gorbits, max_iterations),
            ).add(still_pending).count(x) == mid_sum.add(still_pending).count(x));
        }
        assert(results@.to_multiset().add(
            lane_pairs(scheduler.lanes@, gorbits, max_iterations),
        ).add(pending_pairs(gorbits, max_iterations, queue.next as int)) =~= results_entry
            .to_multiset().add(lane_pairs(lanes_entry, gorbits, max_iterations)).add(
            pending_pairs(gorbits, max_iterations, next_entry as int),
        ));
        // the measure fell: a fill, a burst on an active lane, or a
        // harvest must have happened, or the worker would be done
        assert forall|j: int|
            0 <= j < scheduler.lanes@.len() && (#[trigger] scheduler.lanes@[j]).state
                is Active implies scheduler.lanes@[j].count <= max_iterations by {
            assert(lane_ok(scheduler.lanes@[j], gorbits, max_iterations));
        }
        lemma_lane_fuel_nonnegative(scheduler.lanes@, max_iterations);
        assert((queue.total - queue.next) * (2 * (max_iterations as int) + 3) >= 0)
            by (nonlinear_arith)
            requires queue.next <= queue.total;
        if !filled {
            assert(lanes_refilled == lanes_entry);
            let w = choose|i: int|
                0 <= i < LANE_COUNT && !((#[trigger] lanes_refilled[i]).state is Empty);
            if exists|i: int|
                0 <= i < LANE_COUNT && (#[trigger] lanes_refilled[i]).state is Active {
                assert(lane_fuel(lanes_burst, max_iterations) < lane_fuel(
                    lanes_refilled,
                    max_iterations,
                ));
            } else {
                assert(lanes_burst == lanes_refilled);
                assert(lanes_burst[w].state is Done);
                assert(harvested);
            }
        }
        assert(run_measure(*queue, scheduler.lanes@, max_iterations) < run_measure(
            *old(queue),
            lanes_entry,
            max_iterations,
        ));
    }
    false
}

/// The vectorised evaluator: one lane-recycling scheduler fed from a point
/// queue, run to exhaustion. It delivers exactly the sequential
/// evaluator's result set — the same pairs as a multiset, one per sampled
/// point — in whatever order lanes finish.
pub fn vector_counts(orbits: &Vec<Vec<bool>>, max_iterations: u64) -> (results: Vec<(u64, u64)>)
    requires
        table_ok(orbits@, max_iterations),
    ensures
        results@.to_multiset() == expected_pairs(orbit_seqs(orbits@), max_iterations)
            .to_multiset(),
        results@.len() == orbits@.len(),
{
    broadcast use vstd::seq_lib::group_to_multiset_ensures;
    broadcast use vstd::multiset::group_multiset_axioms;

    let ghost gorbits = orbit_seqs(orbits@);
    let total_points = orbits.len() as u64;
    let mut queue = PointQueue::new(total_points);
    let mut scheduler = VectorScheduler::new(max_iterations);
    let mut results: Vec<(u64, u64)> = Vec::new();
    proof {
        lemma_lane_pairs_all_empty(scheduler.lanes@, gorbits, max_iterations);
        assert(results@.to_multiset().len() == 0);
        assert(results@.to_multiset() =~= Multiset::empty());
        assert(results@.to_multiset().add(
            lane_pairs(scheduler.lanes@, gorbits, max_iterations),
        ).add(pending_pairs(gorbits, max_iterations, queue.next as int)) =~= pending_pairs(
            gorbits,
            max_iterations,
            0,
        ));
    }
    loop
        invariant
            queue.wf(),
            queue.total == total_points,
            gorbits == orbit_seqs(orbits@),
            gorbits.len() == total_points,
            table_ok(orbits@, max_iterations),
            scheduler.wf(),
            scheduler.max_iterations == max_iterations,
            lanes_ok(scheduler.lanes@, gorbits, max_iterations),
            results@.to_multiset().add(
                lane_pairs(scheduler.lanes@, gorbits, max_iterations),
            ).add(pending_pairs(gorbits, max_iterations, queue.next as int)) =~= pending_pairs(
                gorbits,
                max_iterations,
                0,
            ),
        ensures
            queue.next == queue.total,
            forall|i: int| 0 <= i < LANE_COUNT ==> scheduler.lanes@[i].state is Empty,
            results@.to_multiset().add(
                lane_pairs(scheduler.lanes@, gorbits, max_iterations),
            ).add(pending_pairs(gorbits, max_iterations, queue.next as int)) =~= pending_pairs(
                gorbits,
                max_iterations,
                0,
            ),
        decreases run_measure(queue, scheduler.lanes@, max_iterations),
    {
        let worker_done = worker_step(
            &mut scheduler,
            &mut queue,
            &mut results,
            orbits,
            Ghost(gorbits),
        );
        if worker_done {
            break ;
        }
    }
    proof {
        lemma_lane_pairs_all_empty(scheduler.lanes@, gorbits, max_iterations);
        lemma_pending_pairs_full(gorbits, max_iterations);
        let expected = expected_pairs(gorbits, max_iterations);
        assert(pending_pairs(gorbits, max_iterations, queue.next as int) =~= Multiset::empty());
        assert forall|x: (u64, u64)|
            results@.to_multiset().count(x) == expected.to_multiset().count(x) by {
            let with_lanes = results@.to_multiset().add(
                lane_pairs(scheduler.lanes@, gorbits, max_iterations),
            );
            assert(with_lanes.add(
                pending_pairs(gorbits, max_iterations, queue.next as int),
            ).count(x) == pending_pairs(gorbits, max_iterations, 0).count(x));
            assert(with_lanes.count(x) == results@.to_multiset().count(x) + lane_pairs(
                scheduler.lanes@,
                gorbits,
                max_iterations,
            ).count(x));
        }
        assert(results@.to_multiset() =~= expected.to_multiset());
        assert(results@.len() == results@.to_multiset().len());
        assert(expected.len() == expected.to_multiset().len());
    }
    results
}

/// The results held in any lane of a whole crew of workers.
pub open spec fn crew_pairs(
    crew: Seq<VectorScheduler>,
    orbits: Seq<Seq<bool>>,
    max_iterations: u64,
) -> Multiset<(u64, u64)>
    decreases crew.len(),
{
    if crew.len() == 0 {
        Multiset::empty()
    } else {
        crew_pairs(crew.drop_last(), orbits, max_iterations).add(
            lane_pairs(crew.last().lanes@, orbits, max_iterations),
        )
    }
}

/// The fuel left across a whole crew of workers.
pub open spec fn crew_fuel(crew: Seq<VectorScheduler>, max_iterations: u64) -> int
    decreases crew.len(),
{
    if crew.len() == 0 {
        0
    } else {
        crew_fuel(crew.drop_last(), max_iterations) + lane_fuel(
            crew.last().lanes@,
            max_iterations,
        )
    }
}

/// How far a whole crew still is from done: the shared queue's budget plus
/// every worker's remaining fuel. A worker's step can only lower it.
pub open spec fn crew_measure(
    queue: PointQueue,
    crew: Seq<VectorScheduler>,
    max_iterations: u64,
) -> int {
    (queue.total - queue.next) * (2 * (max_iterations as int) + 3) + crew_fuel(
        crew,
        max_iterations,
    )
}

/// How many workers have not yet retired.
pub open spec fn unfinished_count(flags: Seq<bool>) -> int
    decreases flags.len(),
{
    if flags.len() == 0 {
        0
    } else {
        unfinished_count(flags.drop_last()) + if flags.last() {
            0int
        } else {
            1int
        }
    }
}

/// Replacing one worker moves `crew_pairs` by the two workers' lane pairs.
pub proof fn lemma_crew_pairs_update(
    crew: Seq<VectorScheduler>,
    w: int,
    worker: VectorScheduler,
    orbits: Seq<Seq<bool>>,
    max_iterations: u64,
)
    requires
        0 <= w < crew.len(),
    ensures
        crew_pairs(crew.update(w, worker), orbits, max_iterations).add(
            lane_pairs(crew[w].lanes@, orbits, max_iterations),
        ) =~= crew_pairs(crew, orbits, max_iterations).add(
            lane_pairs(worker.lanes@, orbits, max_iterations),
        ),
    decreases crew.len(),
{
    broadcast use vstd::multiset::group_multiset_axioms;

    let updated = crew.update(w, worker);
    assert(updated.len() == crew.len());
    if w == crew.len() - 1 {
        assert(updated.drop_last() =~= crew.drop_last());
        assert(updated.last() == worker);
        assert(crew[w] == crew.last());
        assert(crew_pairs(updated, orbits, max_iterations) == crew_pairs(
            crew.drop_last(),
            orbits,
            max_iterations,
        ).add(lane_pairs(worker.lanes@, orbits, max_iterations)));
        assert(crew_pairs(crew, orbits, max_iterations) == crew_pairs(
            crew.drop_last(),
            orbits,
            max_iterations,
        ).add(lane_pairs(crew[w].lanes@, orbits, max_iterations)));
        assert(crew_pairs(updated, orbits, max_iterations).add(
            lane_pairs(crew[w].lanes@, orbits, max_iterations),
        ) =~= crew_pairs(crew, orbits, max_iterations).add(
            lane_pairs(worker.lanes@, orbits, max_iterations),
        ));
    } else {
        lemma_crew_pairs_update(crew.drop_last(), w, worker, orbits, max_iterations);
        assert(updated.drop_last() =~= crew.drop_last().update(w, worker));
        assert(updated.last() == crew.last());
        assert(crew.drop_last()[w] == crew[w]);
        assert(crew_pairs(updated, orbits, max_iterations) == crew_pairs(
            crew.drop_last().update(w, worker),
            orbits,
            max_iterations,
        ).add(lane_pairs(crew.last().lanes@, orbits, max_iterations)));
        assert(crew_pairs(crew, orbits, max_iterations) == crew_pairs(
            crew.drop_last(),
            orbits,
            max_iterations,
        ).add(lane_pairs(crew.last().lanes@, orbits, max_iterations)));
        assert(crew_pairs(updated, orbits, max_iterations).add(
            lane_pairs(crew[w].lanes@, orbits, max_iterations),
        ) =~= crew_pairs(crew, orbits, max_iterations).add(
            lane_pairs(worker.lanes@, orbits, max_iterations),
        ));
    }
}

/// Replacing one worker moves `crew_fuel` by the two workers' fuel.
pub proof fn lemma_crew_fuel_update(
    crew: Seq<VectorScheduler>,
    w: int,
    worker: VectorScheduler,
    max_iterations: u64,
)
    requires
        0 <= w < crew.len(),
    ensures
        crew_fuel(crew.update(w, worker), max_iterations) == crew_fuel(crew, max_iterations)
            - lane_fuel(crew[w].lanes@, max_iterations) + lane_fuel(
            worker.lanes@,
            max_iterations,
        ),
    decreases crew.len(),
{
    let updated = crew.update(w, worker);
    if w == crew.len() - 1 {
        assert(updated.drop_last() =~= crew.drop_last());
        assert(updated.last() == worker);
        assert(crew[w] == crew.last());
    } else {
        lemma_crew_fuel_update(crew.drop_last(), w, worker, max_iterations);
        assert(updated.drop_last() =~= crew.drop_last().update(w, worker));
        assert(updated.last() == crew.last());
        assert(crew.drop_last()[w] == crew[w]);
    }
}

/// A crew whose active counts respect the cap never has negative fuel.
pub proof fn lemma_crew_fuel_nonnegative(
    crew: Seq<VectorScheduler>,
    orbits: Seq<Seq<bool>>,
    max_iterations: u64,
)
    requires
        forall|w: int|
            0 <= w < crew.len() ==> lanes_ok((#[trigger] crew[w]).lanes@, orbits, max_iterations),
    ensures
        crew_fuel(crew, max_iterations) >= 0,
    decreases crew.len(),
{
    if crew.len() > 0 {
        lemma_crew_fuel_nonnegative(crew.drop_last(), orbits, max_iterations);
        assert(crew[crew.len() - 1] == crew.last());
        assert(lanes_ok(crew.last().lanes@, orbits, max_iterations));
        assert forall|i: int|
            0 <= i < crew.last().lanes@.len() && (#[trigger] crew.last().lanes@[i]).state
                is Active implies crew.last().lanes@[i].count <= max_iterations by {
            assert(lane_ok(crew.last().lanes@[i], orbits, max_iterations));
        }
        lemma_lane_fuel_nonnegative(crew.last().lanes@, max_iterations);
    }
}

/// A crew of workers whose lanes are all empty holds no results.
pub proof fn lemma_crew_pairs_all_empty(
    crew: Seq<VectorScheduler>,
    orbits: Seq<Seq<bool>>,
    max_iterations: u64,
)
    requires
        forall|w: int, i: int|
            0 <= w < crew.len() && 0 <= i < (#[trigger] crew[w]).lanes@.len()
                ==> (#[trigger] crew[w].lanes@[i]).state is Empty,
    ensures
        crew_pairs(crew, orbits, max_iterations) =~= Multiset::empty(),
        crew_fuel(crew, max_iterations) == 0,
    decreases crew.len(),
{
    broadcast use vstd::multiset::group_multiset_axioms;

    if crew.len() > 0 {
        lemma_crew_pairs_all_empty(crew.drop_last(), orbits, max_iterations);
        assert(crew[crew.len() - 1] == crew.last());
        lemma_lane_pairs_all_empty(crew.last().lanes@, orbits, max_iterations);
    }
}

/// Retiring one worker lowers the number of unfinished workers by one.
pub proof fn lemma_unfinished_update(flags: Seq<bool>, w: int, value: bool)
    requires
        0 <= w < flags.len(),
    ensures
        unfinished_count(flags.update(w, value)) == unfinished_count(flags) - (if flags[w] {
            0int
        } else {
            1int
        }) + (if value {
            0int
        } else {
            1int
        }),
    decreases flags.len(),
{
    let updated = flags.update(w, value);
    if w == flags.len() - 1 {
        assert(updated.drop_last() =~= flags.drop_last());
        assert(updated.last() == value);
        assert(flags[w] == flags.last());
    } else {
        lemma_unfinished_update(flags.drop_last(), w, value);
        assert(updated.drop_last() =~= flags.drop_last().update(w, value));
        assert(updated.last() == flags.last());
        assert(flags.drop_last()[w] == flags[w]);
    }
}

/// There are between zero and `flags.len()` unfinished workers.
pub proof fn lemma_unfinished_bounds(flags: Seq<bool>)
    ensures
        0 <= unfinished_count(flags) <= flags.len(),
    decreases flags.len(),
{
    if flags.len() > 0 {
        lemma_unfinished_bounds(flags.drop_last());
    }
}

/// The multi-worker vectorised evaluator: several lane-recycling workers
/// pulling from one shared point queue and appending to one shared output.
/// The workers take turns, one outer step each per round, so their queue
/// pulls interleave; whatever the interleaving, the queue hands each point
/// to exactly one worker and the combined output is exactly the sequential
/// evaluator's result set, as a multiset.
pub fn vector_parallel_counts(
    orbits: &Vec<Vec<bool>>,
    max_iterations: u64,
    workers: usize,
) -> (results: Vec<(u64, u64)>)
    requires
        table_ok(orbits@, max_iterations),
        workers >= 1,
    ensures
        results@.to_multiset() == expected_pairs(orbit_seqs(orbits@), max_iterations)
            .to_multiset(),
        results@.len() == orbits@.len(),
{
    broadcast use vstd::seq_lib::group_to_multiset_ensures;
    broadcast use vstd::multiset::group_multiset_axioms;

    let ghost gorbits = orbit_seqs(orbits@);
    let total_points = orbits.len() as u64;
    let mut queue = PointQueue::new(total_points);
    let mut results: Vec<(u64, u64)> = Vec::new();
    let mut crew: Vec<VectorScheduler> = Vec::new();
    let mut finished: Vec<bool> = Vec::new();
    let mut k: usize = 0;
    while k < workers
        invariant
            crew@.len() == k,
            finished@.len() == k,
            k <= workers,
            forall|w: int| 0 <= w < k ==> (#[trigger] crew@[w]).wf(),
            forall|w: int| 0 <= w < k ==> (#[trigger] crew@[w]).max_iterations == max_iterations,
            forall|w: int, i: int|
                0 <= w < k && 0 <= i < (#[trigger] crew@[w]).lanes@.len()
                    ==> (#[trigger] crew@[w].lanes@[i]).state is Empty,
            forall|w: int| 0 <= w < k ==> !(#[trigger] finished@[w]),
        decreases workers - k,
    {
        crew.push(VectorScheduler::new(max_iterations));
        finished.push(false);
        k = k + 1;
    }
    proof {
        lemma_crew_pairs_all_empty(crew@, gorbits, max_iterations);
        assert(results@.to_multiset().len() == 0);
        assert(results@.to_multiset() =~= Multiset::empty());
        assert(results@.to_multiset().add(crew_pairs(crew@, gorbits, max_iterations)).add(
            pending_pairs(gorbits, max_iterations, queue.next as int),
        ) =~= pending_pairs(gorbits, max_iterations, 0));
        assert forall|w: int| 0 <= w < workers implies lanes_ok(
            (#[trigger] crew@[w]).lanes@,
            gorbits,
            max_iterations,
        ) by {
            assert forall|i: int| 0 <= i < crew@[w].lanes@.len() implies lane_ok(
                #[trigger] crew@[w].lanes@[i],
                gorbits,
                max_iterations,
            ) by {
                assert(crew@[w].lanes@[i].state is Empty);
            }
        }
    }
    loop
        invariant
            queue.wf(),
            queue.total == total_points,
            gorbits == orbit_seqs(orbits@),
            gorbits.len() == total_points,
            table_ok(orbits@, max_iterations),
            workers >= 1,
            crew@.len() == workers,
            finished@.len() == workers,
            forall|w: int| 0 <= w < workers ==> (#[trigger] crew@[w]).wf(),
            forall|w: int|
                0 <= w < workers ==> (#[trigger] crew@[w]).max_iterations == max_iterations,
            forall|w: int|
                0 <= w < workers ==> lanes_ok((#[trigger] crew@[w]).lanes@, gorbits, max_iterations),
            forall|w: int|
                0 <= w < workers && (#[trigger] finished@[w]) ==> queue.next == queue.total,
            forall|w: int, i: int|
                0 <= w < workers && finished@[w] && 0 <= i < crew@[w].lanes@.len()
                    ==> (#[trigger] crew@[w].lanes@[i]).state is Empty,
            results@.to_multiset().add(crew_pairs(crew@, gorbits, max_iterations)).add(
                pending_pairs(gorbits, max_iterations, queue.next as int),
            ) =~= pending_pairs(gorbits, max_iterations, 0),
        ensures
            forall|w: int| 0 <= w < workers ==> finished@[w],
            crew@.len() == workers,
            finished@.len() == workers,
            queue.next == queue.total,
            forall|w: int, i: int|
                0 <= w < workers && finished@[w] && 0 <= i < crew@[w].lanes@.len()
                    ==> (#[trigger] crew@[w].lanes@[i]).state is Empty,
            results@.to_multiset().add(crew_pairs(crew@, gorbits, max_iterations)).add(
                pending_pairs(gorbits, max_iterations, queue.next as int),
            ) =~= pending_pairs(gorbits, max_iterations, 0),
        decreases crew_measure(queue, crew@, max_iterations), unfinished_count(finished@),
    {
        let mut all_done: bool = true;
        let mut v: usize = 0;
        while v < workers
            invariant
                finished@.len() == workers,
                v <= workers,
                all_done == (forall|u: int| 0 <= u < v ==> finished@[u]),
            decreases workers - v,
        {
            if !finished[v] {
                all_done = false;
            }
            v = v + 1;
        }
        if all_done {
            proof {
                assert(finished@[0]);
            }
            break ;
        }
        let ghost measure_round = crew_measure(queue, crew@, max_iterations);
        let ghost unfinished_round = unfinished_count(finished@);
        let ghost flags_round = finished@;
        let mut w: usize = 0;
        while w < workers
            invariant
                queue.wf(),
                queue.total == total_points,
                gorbits == orbit_seqs(orbits@),
                gorbits.len() == total_points,
                table_ok(orbits@, max_iterations),
                workers >= 1,
                crew@.len() == workers,
                finished@.len() == workers,
                flags_round.len() == workers,
                w <= workers,
                !(forall|u: int| 0 <= u < workers ==> flags_round[u]),
                forall|u: int| 0 <= u < workers ==> (#[trigger] crew@[u]).wf(),
                forall|u: int|
                    0 <= u < workers ==> (#[trigger] crew@[u]).max_iterations == max_iterations,
                forall|u: int|
                    0 <= u < workers ==> lanes_ok(
                        (#[trigger] crew@[u]).lanes@,
                        gorbits,
                        max_iterations,
                    ),
                forall|u: int|
                    0 <= u < workers && (#[trigger] finished@[u]) ==> queue.next == queue.total,
                forall|u: int, i: int|
                    0 <= u < workers && finished@[u] && 0 <= i < crew@[u].lanes@.len()
                        ==> (#[trigger] crew@[u].lanes@[i]).state is Empty,
                forall|u: int| w <= u < workers ==> finished@[u] == flags_round[u],
                results@.to_multiset().add(crew_pairs(crew@, gorbits, max_iterations)).add(
                    pending_pairs(gorbits, max_iterations, queue.next as int),
                ) =~= pending_pairs(gorbits, max_iterations, 0),
                crew_measure(queue, crew@, max_iterations) <= measure_round,
                unfinished_count(finished@) <= unfinished_round,
                crew_measure(queue, crew@, max_iterations) < measure_round || unfinished_count(
                    finished@,
                ) < unfinished_round || (forall|u: int| 0 <= u < w ==> flags_round[u]),
            decreases workers - w,
        {
            let is_finished = finished[w];
            if !is_finished {
                let ghost crew_before = crew@;
                let ghost flags_before = finished@;
                let ghost next_before = queue.next;
                let ghost results_before = results@;
                let ghost measure_before = crew_measure(queue, crew@, max_iterations);
                let worker = &mut crew[w];
                let worker_done = worker_step(
                    worker,
                    &mut queue,
                    &mut results,
                    orbits,
                    Ghost(gorbits),
                );
                proof {
                    let stepped = crew@[w as int];
                    assert(crew@ == crew_before.update(w as int, stepped));
                    lemma_crew_pairs_update(
                        crew_before,
                        w as int,
                        stepped,
                        gorbits,
                        max_iterations,
                    );
                    lemma_crew_fuel_update(crew_before, w as int, stepped, max_iterations);
                    let rn = results@.to_multiset();
                    let rb = results_before.to_multiset();
                    let ln = lane_pairs(stepped.lanes@, gorbits, max_iterations);
                    let lb = lane_pairs(crew_before[w as int].lanes@, gorbits, max_iterations);
                    let cn = crew_pairs(crew@, gorbits, max_iterations);
                    let cb = crew_pairs(crew_before, gorbits, max_iterations);
                    let dn = pending_pairs(gorbits, max_iterations, queue.next as int);
                    let db = pending_pairs(gorbits, max_iterations, next_before as int);
                    assert forall|x: (u64, u64)| rn.add(cn).add(dn).count(x) == rb.add(cb).add(
                        db,
                    ).count(x) by {
                        assert(rn.add(ln).add(dn).count(x) == rb.add(lb).add(db).count(x));
                        assert(rn.add(ln).add(dn).count(x) == rn.add(ln).count(x) + dn.count(x));
                        assert(rn.add(ln).count(x) == rn.count(x) + ln.count(x));
                        assert(rb.add(lb).add(db).count(x) == rb.add(lb).count(x) + db.count(x));
                        assert(rb.add(lb).count(x) == rb.count(x) + lb.count(x));
                        assert(cn.add(lb).count(x) == cb.add(ln).count(x));
                        assert(cn.add(lb).count(x) == cn.count(x) + lb.count(x));
                        assert(cb.add(ln).count(x) == cb.count(x) + ln.count(x));
                        assert(rn.add(cn).add(dn).count(x) == rn.add(cn).count(x) + dn.count(x));
                        assert(rn.add(cn).count(x) == rn.count(x) + cn.count(x));
                        assert(rb.add(cb).add(db).count(x) == rb.add(cb).count(x) + db.count(x));
                        assert(rb.add(cb).count(x) == rb.count(x) + cb.count(x));
                    }
                    assert(rn.add(cn).add(dn) =~= rb.add(cb).add(db));
                    assert(rn.add(cn).add(dn) =~= pending_pairs(gorbits, max_iterations, 0));
                    assert(crew_measure(queue, crew@, max_iterations) <= measure_before);
                    if !worker_done {
                        assert(crew_measure(queue, crew@, max_iterations) < measure_before);
                    }
                    assert forall|u: int| 0 <= u < workers implies lanes_ok(
                        (#[trigger] crew@[u]).lanes@,
                        gorbits,
                        max_iterations,
                    ) by {
                        if u != w {
                            assert(crew@[u] == crew_before[u]);
                        }
                    }
                }
                if worker_done {
                    finished[w] = true;
                    proof {
                        lemma_unfinished_update(flags_before, w as int, true);
                        assert(unfinished_count(finished@) == unfinished_count(flags_before)
                            - 1);
                    }
                }
            }
            w = w + 1;
        }
        proof {
            lemma_crew_fuel_nonnegative(crew@, gorbits, max_iterations);
            lemma_unfinished_bounds(finished@);
            assert((queue.total - queue.next) * (2 * (max_iterations as int) + 3) >= 0)
                by (nonlinear_arith)
                requires queue.next <= queue.total;
            assert(crew_measure(queue, crew@, max_iterations) < measure_round
                || unfinished_count(finished@) < unfinished_round);
        }
    }
    proof {
        assert(queue.next == queue.total);
        lemma_crew_pairs_all_empty(crew@, gorbits, max_iterations);
        lemma_pending_pairs_full(gorbits, max_iterations);
        let expected = expected_pairs(gorbits, max_iterations);
        assert(pending_pairs(gorbits, max_iterations, queue.next as int) =~= Multiset::empty());
        assert forall|x: (u64, u64)|
            results@.to_multiset().count(x) == expected.to_multiset().count(x) by {
            let with_crew = results@.to_multiset().add(
                crew_pairs(crew@, gorbits, max_iterations),
            );
            assert(with_crew.add(
                pending_pairs(gorbits, max_iterations, queue.next as int),
            ).count(x) == pending_pairs(gorbits, max_iterations, 0).count(x));
            assert(with_crew.count(x) == results@.to_multiset().count(x) + crew_pairs(
                crew@,
                gorbits,
                max_iterations,
            ).count(x));
        }
        assert(results@.to_multiset() =~= expected.to_multiset());
        assert(results@.len() == results@.to_multiset().len());
        assert(expected.len() == expected.to_multiset().len());
    }
    results
}

/// Law: all four evaluators agree. The sequential evaluator's ordered
/// result sequence and any result sequence of a vectorised evaluator —
/// with one worker or many — carry the same multiset of (point, count)
/// pairs, exactly one pair per sampled point. The data-parallel evaluator
/// applies the same escape loop to each point independently, so its
/// results are a reordering of the sequential ones and agree the same way.
pub proof fn lemma_evaluators_agree(
    ordered_results: Seq<(u64, u64)>,
    unordered_results: Seq<(u64, u64)>,
    orbits: Seq<Seq<bool>>,
    max_iterations: u64,
)
    requires
        ordered_results == expected_pairs(orbits, max_iterations),
        unordered_results.to_multiset() == expected_pairs(orbits, max_iterations).to_multiset(),
    ensures
        unordered_results.to_multiset() == ordered_results.to_multiset(),
        ordered_results.len() == orbits.len(),
        unordered_results.len() == orbits.len(),
{
    broadcast use vstd::seq_lib::group_to_multiset_ensures;

    assert(unordered_results.len() == unordered_results.to_multiset().len());
    assert(ordered_results.len() == ordered_results.to_multiset().len());
}

/// The four evaluation strategies of the engine. The data-parallel
/// fan-out and the worker threads live with the caller; at the level of
/// the report table the strategies differ in schedule, not in result.
#[derive(Clone, Copy, PartialEq, Eq, Structural, Debug)]
pub enum EvaluationStrategy {
    Scalar,
    Parallel,
    Vector,
    VectorParallel { workers: usize },
}

/// Evaluate a whole report table under the chosen strategy: whichever
/// schedule runs, the result set is the same multiset — exactly one
/// (point, escape count) pair per sampled point — and the sequential
/// baseline additionally keeps the sampling order.
pub fn evaluate_table(
    orbits: &Vec<Vec<bool>>,
    max_iterations: u64,
    strategy: EvaluationStrategy,
) -> (results: Vec<(u64, u64)>)
    requires
        table_ok(orbits@, max_iterations),
        strategy matches EvaluationStrategy::VectorParallel { workers } ==> workers >= 1,
    ensures
        results@.to_multiset() == expected_pairs(orbit_seqs(orbits@), max_iterations)
            .to_multiset(),
        results@.len() == orbits@.len(),
        strategy == EvaluationStrategy::Scalar ==> results@ == expected_pairs(
            orbit_seqs(orbits@),
            max_iterations,
        ),
{
    match strategy {
        EvaluationStrategy::Scalar => scalar_counts(orbits, max_iterations),
        EvaluationStrategy::Parallel => scalar_counts(orbits, max_iterations),
        EvaluationStrategy::Vector => vector_counts(orbits, max_iterations),
        EvaluationStrategy::VectorParallel { workers } => vector_parallel_counts(
            orbits,
            max_iterations,
            workers,
        ),
    }
}

} // verus!
