use vstd::prelude::*;

use crate::datetime::Seconds;
use crate::raptor::tables::{copy_times, empty_leg_rows, filled_flags, filled_times};
use crate::raptor::types::{Leg, RaptorStopID, INFINITY};

verus! {

/// Working state of one query, with arrival times ("tau") per stop as in the RAPTOR paper.
pub struct RaptorState {
    /// Earliest arrival at each stop after the previous round.
    pub tau_prev: Vec<Seconds>,
    /// Earliest arrival at each stop after the current round.
    pub tau_current: Vec<Seconds>,
    /// Earliest arrival at each stop in any round.
    pub tau_best: Vec<Seconds>,
    /// `parent_leg[round][stop]`: the leg that reached the stop in that round.
    pub parent_leg: Vec<Vec<Option<Leg>>>,
    /// Whether each stop was marked this round.
    pub marked: Vec<bool>,
    /// The stops marked this round.
    pub marked_stops: Vec<RaptorStopID>,
    pub destination_stop: RaptorStopID,
    pub departure_time: Seconds,
    pub round: usize,
}

/// Whether `update` accepts an arrival: not before the departure, and strictly earlier
/// than the stop's time this round, its best time, and the best time at the destination.
pub open spec fn improves(s: &RaptorState, stop: RaptorStopID, arrival_time: Seconds) -> bool {
    &&& arrival_time >= s.departure_time
    &&& arrival_time < s.tau_current@[stop.id as int]
    &&& arrival_time < s.tau_best@[stop.id as int]
    &&& arrival_time < s.tau_best@[s.destination_stop.id as int]
}

/// The marked stops are listed once each, and a stop is flagged as marked exactly when
/// it is listed.
pub open spec fn marks_listed(s: &RaptorState) -> bool {
    &&& forall|i: int| 0 <= i < s.marked_stops@.len() ==> (#[trigger] s.marked_stops@[i]).id < s.marked@.len()
    &&& forall|i: int, j: int|
        0 <= i < j < s.marked_stops@.len() ==> #[trigger] s.marked_stops@[i] != #[trigger] s.marked_stops@[j]
    &&& forall|x: int|
        0 <= x < s.marked@.len() ==> (#[trigger] s.marked@[x] <==> s.marked_stops@.contains(
            RaptorStopID { id: x as usize },
        ))
}

impl RaptorState {
    /// Tables sized for `n` stops and `rows` rounds, with marked stops in range.
    pub open spec fn shaped(&self, n: nat, rows: nat) -> bool {
        &&& self.tau_prev@.len() == n
        &&& self.tau_current@.len() == n
        &&& self.tau_best@.len() == n
        &&& self.marked@.len() == n
        &&& self.parent_leg@.len() == rows
        &&& forall|k: int| 0 <= k < rows ==> (#[trigger] self.parent_leg@[k])@.len() == n
        &&& forall|i: int| 0 <= i < self.marked_stops@.len() ==> (#[trigger] self.marked_stops@[i]).id < n
        &&& self.destination_stop.id < n
    }

    /// A new query from `origin` at `departure_time`: only the origin is reached and
    /// marked; there is one row of parent legs per round from 0 to `max_transfers`.
    pub fn new(
        origin: RaptorStopID,
        destination: RaptorStopID,
        departure_time: Seconds,
        num_stops: usize,
        max_transfers: usize,
        round: usize,
    ) -> (res: Self)
        requires
            origin.id < num_stops,
            max_transfers < usize::MAX,
        ensures
            res.tau_prev@ == Seq::new(num_stops as nat, |i: int| INFINITY).update(
                origin.id as int,
                departure_time,
            ),
            res.tau_current@ == Seq::new(num_stops as nat, |i: int| INFINITY),
            res.tau_best@ == Seq::new(num_stops as nat, |i: int| INFINITY).update(
                origin.id as int,
                departure_time,
            ),
            res.parent_leg@.len() == max_transfers + 1,
            forall|k: int| 0 <= k <= max_transfers ==> (#[trigger] res.parent_leg@[k])@.len() == num_stops,
            forall|k: int, s: int|
                0 <= k <= max_transfers && 0 <= s < num_stops ==> (#[trigger] res.parent_leg@[k]@[s]) is None,
            res.marked@ == Seq::new(num_stops as nat, |i: int| false).update(origin.id as int, true),
            res.marked_stops@ == seq![origin],
            marks_listed(&res),
            res.destination_stop == destination,
            res.departure_time == departure_time,
            res.round == 0,
    {
        let mut tau_prev = filled_times(num_stops, INFINITY);
        let tau_current = filled_times(num_stops, INFINITY);
        let mut tau_best = filled_times(num_stops, INFINITY);
        tau_prev.set(origin.id, departure_time);
        tau_best.set(origin.id, departure_time);
        let mut marked = filled_flags(num_stops, false);
        marked.set(origin.id, true);
        let mut marked_stops: Vec<RaptorStopID> = Vec::new();
        marked_stops.push(origin);
        proof {
            assert(marked_stops@[0] == origin);
            assert forall|x: int| 0 <= x < marked@.len() implies (#[trigger] marked@[x] <==> marked_stops@.contains(
                RaptorStopID { id: x as usize },
            )) by {
                if x == origin.id {
                    assert(RaptorStopID { id: x as usize } == origin);
                } else if marked_stops@.contains(RaptorStopID { id: x as usize }) {
                    let i = choose|i: int| 0 <= i < marked_stops@.len() && marked_stops@[i] == RaptorStopID { id: x as usize };
                    assert(marked_stops@[i] == origin);
                }
            }
        }
        Self {
            tau_prev,
            tau_current,
            tau_best,
            parent_leg: empty_leg_rows(max_transfers + 1, num_stops),
            marked,
            marked_stops,
            destination_stop: destination,
            departure_time,
            round: 0,
        }
    }

    pub fn tau_prev(&self, stop: &RaptorStopID) -> (res: Seconds)
        requires
            stop.id < self.tau_prev@.len(),
        ensures
            res == self.tau_prev@[stop.id as int],
    {
        self.tau_prev[stop.id]
    }

    pub fn tau_current(&self, stop: &RaptorStopID) -> (res: Seconds)
        requires
            stop.id < self.tau_current@.len(),
        ensures
            res == self.tau_current@[stop.id as int],
    {
        self.tau_current[stop.id]
    }

    pub fn tau_best(&self, stop: &RaptorStopID) -> (res: Seconds)
        requires
            stop.id < self.tau_best@.len(),
        ensures
            res == self.tau_best@[stop.id as int],
    {
        self.tau_best[stop.id]
    }

    /// A new round starts from the previous round's times.
    pub fn start_round(&mut self)
        requires
            old(self).tau_current@.len() == old(self).tau_prev@.len(),
        ensures
            *final(self) == (RaptorState { tau_current: final(self).tau_current, ..*old(self) }),
            final(self).tau_current@ == old(self).tau_prev@,
    {
        self.tau_current = copy_times(&self.tau_prev);
    }

    /// Records `arrival_time` at `stop` (reached by `leg` in `round`) when it improves on
    /// what is known, and marks the stop; returns whether it did.
    pub fn update(&mut self, round: usize, stop: RaptorStopID, arrival_time: Seconds, leg: Leg) -> (res:
        bool)
        requires
            stop.id < old(self).tau_current@.len(),
            stop.id < old(self).tau_best@.len(),
            stop.id < old(self).marked@.len(),
            old(self).destination_stop.id < old(self).tau_best@.len(),
            improves(old(self), stop, arrival_time) ==> round < old(self).parent_leg@.len()
                && stop.id < old(self).parent_leg@[round as int]@.len(),
        ensures
            res == improves(old(self), stop, arrival_time),
            !res ==> *final(self) == *old(self),
            marks_listed(old(self)) ==> marks_listed(final(self)),
            forall|x: int|
                0 <= x < old(self).tau_best@.len() ==> #[trigger] final(self).tau_best@[x] <= old(self).tau_best@[x],
            res ==> {
                &&& final(self).tau_current@ == old(self).tau_current@.update(
                    stop.id as int,
                    arrival_time,
                )
                &&& final(self).tau_best@ == old(self).tau_best@.update(stop.id as int, arrival_time)
                &&& final(self).parent_leg@.len() == old(self).parent_leg@.len()
                &&& forall|k: int|
                    0 <= k < old(self).parent_leg@.len() && k != round ==> #[trigger] final(self).parent_leg@[k]
                        == old(self).parent_leg@[k]
                &&& final(self).parent_leg@[round as int]@ == old(self).parent_leg@[round as int]@.update(stop.id as int, Some(leg))
                &&& final(self).marked@ == old(self).marked@.update(stop.id as int, true)
                &&& final(self).marked_stops@ == if old(self).marked@[stop.id as int] {
                    old(self).marked_stops@
                } else {
                    old(self).marked_stops@.push(stop)
                }
                &&& final(self).tau_prev == old(self).tau_prev
                &&& final(self).destination_stop == old(self).destination_stop
                &&& final(self).departure_time == old(self).departure_time
                &&& final(self).round == old(self).round
            },
    {
        if arrival_time < self.departure_time {
            return false;
        }
        let dest_best = self.tau_best[self.destination_stop.id];
        if arrival_time < self.tau_current[stop.id] && arrival_time < self.tau_best[stop.id]
            && arrival_time < dest_best {
            self.tau_current.set(stop.id, arrival_time);
            self.tau_best.set(stop.id, arrival_time);
            self.parent_leg[round].set(stop.id, Some(leg));
            let ghost pre = *self;
            if !self.marked[stop.id] {
                self.marked.set(stop.id, true);
                self.marked_stops.push(stop);
            }
            let num_flags = self.marked.len();
            proof {
                if marks_listed(old(self)) {
                    assert(pre.marked_stops@ == old(self).marked_stops@);
                    assert(pre.marked@ == old(self).marked@);
                    if !pre.marked@[stop.id as int] {
                        assert(RaptorStopID { id: stop.id } == stop);
                        assert(!pre.marked_stops@.contains(stop));
                        assert forall|i: int, j: int|
                            0 <= i < j < self.marked_stops@.len() implies #[trigger] self.marked_stops@[i]
                            != #[trigger] self.marked_stops@[j] by {
                            if j == pre.marked_stops@.len() {
                                assert(pre.marked_stops@[i] == self.marked_stops@[i]);
                            } else {
                                assert(pre.marked_stops@[i] == self.marked_stops@[i]);
                                assert(pre.marked_stops@[j] == self.marked_stops@[j]);
                            }
                        }
                        assert forall|x: int| 0 <= x < self.marked@.len() implies (#[trigger] self.marked@[x]
                            <==> self.marked_stops@.contains(RaptorStopID { id: x as usize })) by {
                            assert(x < num_flags);
                            if x == stop.id {
                                assert(RaptorStopID { id: x as usize } == stop);
                                assert(self.marked_stops@[self.marked_stops@.len() - 1] == stop);
                                assert(self.marked_stops@.contains(stop));
                            } else {
                                assert(self.marked@[x] == pre.marked@[x]);
                                assert(pre.marked@[x] <==> pre.marked_stops@.contains(RaptorStopID { id: x as usize }));
                                if pre.marked_stops@.contains(RaptorStopID { id: x as usize }) {
                                    let i = choose|i: int| 0 <= i < pre.marked_stops@.len() && pre.marked_stops@[i] == RaptorStopID { id: x as usize };
                                    assert(self.marked_stops@[i] == pre.marked_stops@[i]);
                                }
                                if self.marked_stops@.contains(RaptorStopID { id: x as usize }) {
                                    let i = choose|i: int| 0 <= i < self.marked_stops@.len() && self.marked_stops@[i] == RaptorStopID { id: x as usize };
                                    if i < pre.marked_stops@.len() {
                                        assert(pre.marked_stops@[i] == self.marked_stops@[i]);
                                    } else {
                                        assert(self.marked_stops@[i] == stop);
                                    }
                                }
                            }
                        }
                    } else {
                        assert forall|x: int| 0 <= x < self.marked@.len() implies (#[trigger] self.marked@[x]
                            <==> self.marked_stops@.contains(RaptorStopID { id: x as usize })) by {
                            assert(self.marked@[x] == pre.marked@[x]);
                        }
                    }
                }
            }
            true
        } else {
            false
        }
    }

    /// The round's times become the previous round's.
    pub fn finish_round(&mut self)
        requires
            old(self).tau_current@.len() == old(self).tau_prev@.len(),
        ensures
            *final(self) == (RaptorState { tau_prev: final(self).tau_prev, ..*old(self) }),
            final(self).tau_prev@ == old(self).tau_current@,
    {
        self.tau_prev = copy_times(&self.tau_current);
    }
}

} // verus!
