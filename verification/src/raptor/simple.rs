use vstd::prelude::*;

use crate::datetime::Seconds;
use crate::errors::RaptorError;
use crate::raptor::handler::{below_some_arrival, direct_ride};
use crate::raptor::state::{improves, marks_listed, RaptorState};
use crate::raptor::tables::{copy_stops, empty_slots, reversed_legs};
use crate::raptor::reach::{lemma_journey_ends_at_stop, lemma_journey_prefix, position_listed, serving_complete};
use crate::raptor::types::{
    feasible_journey, leg_in_timetable, Journey, Leg, RaptorRouteServingStop, RaptorStopID, RaptorTimetable, TimetableRouteID, INFINITY,
};

verus! {

/// A leg the timetable offers, where a ride may also end at the stop where it boards.
pub open spec fn leg_offered(tt: &RaptorTimetable, leg: Leg) -> bool {
    match leg.trip_id {
        Some(trip) => exists|r: int, t: int, i: int, j: int|
            #![trigger tt.departure_at(r, t, i), tt.arrival_at(r, t, j)]
            0 <= r < tt.routes@.len() && 0 <= t < tt.routes@[r].trips@.len() && 0 <= i <= j
                < tt.routes@[r].stops@.len() && tt.routes@[r].trips@[t].trip_id == trip
                && tt.routes@[r].stops@[i] == leg.origin_stop && tt.routes@[r].stops@[j]
                == leg.destination_stop && tt.departure_at(r, t, i) == leg.leg_start_time
                && tt.arrival_at(r, t, j) == leg.leg_end_time,
        None => 0 <= leg.origin_stop.id < tt.transfers@.len() && exists|k: int|
            0 <= k < tt.transfers@[leg.origin_stop.id as int]@.len() && (#[trigger] tt.transfers@[leg.origin_stop.id as int]@[k]).to_stop
                == leg.destination_stop && leg.leg_end_time == leg.leg_start_time
                + tt.transfers@[leg.origin_stop.id as int]@[k].walk_time,
    }
}

/// From state `s0` to state `s1`: the stops marked in `s0` stay marked, every stop whose
/// best time improved is marked, and the times of this round stay the best times when
/// they were.
pub open spec fn tracks_marks(s0: RaptorState, s1: RaptorState) -> bool {
    &&& forall|q: int| 0 <= q < s0.marked_stops@.len() ==> s1.marked_stops@.contains(#[trigger] s0.marked_stops@[q])
    &&& forall|x: int|
        0 <= x < s1.tau_best@.len() && x < s0.tau_best@.len() && #[trigger] s1.tau_best@[x] < s0.tau_best@[x]
            ==> s1.marked_stops@.contains(RaptorStopID { id: x as usize })
    &&& s0.tau_current@ == s0.tau_best@ ==> s1.tau_current@ == s1.tau_best@
    &&& s1.departure_time == s0.departure_time
    &&& s1.tau_best@.len() == s0.tau_best@.len()
    &&& (forall|y: int| 0 <= y < s0.tau_best@.len() ==> #[trigger] s0.tau_best@[y] >= s0.departure_time) ==> (
    forall|y: int| 0 <= y < s1.tau_best@.len() ==> #[trigger] s1.tau_best@[y] >= s0.departure_time)
}

proof fn lemma_tracks_refl(s: RaptorState)
    ensures
        tracks_marks(s, s),
{
    assert forall|q: int| 0 <= q < s.marked_stops@.len() implies s.marked_stops@.contains(#[trigger] s.marked_stops@[q]) by {}
}

proof fn lemma_tracks_trans(s0: RaptorState, s1: RaptorState, s2: RaptorState)
    requires
        tracks_marks(s0, s1),
        tracks_marks(s1, s2),
        s1.tau_best@.len() == s0.tau_best@.len(),
        s2.tau_best@.len() == s0.tau_best@.len(),
        forall|x: int| 0 <= x < s2.tau_best@.len() ==> #[trigger] s2.tau_best@[x] <= s1.tau_best@[x],
    ensures
        tracks_marks(s0, s2),
{
    assert forall|q: int| 0 <= q < s0.marked_stops@.len() implies s2.marked_stops@.contains(#[trigger] s0.marked_stops@[q]) by {
        let w = s0.marked_stops@[q];
        assert(s1.marked_stops@.contains(w));
        let q1 = choose|q1: int| 0 <= q1 < s1.marked_stops@.len() && s1.marked_stops@[q1] == w;
        assert(s2.marked_stops@.contains(s1.marked_stops@[q1]));
    }
    assert forall|x: int|
        0 <= x < s2.tau_best@.len() && x < s0.tau_best@.len() && #[trigger] s2.tau_best@[x] < s0.tau_best@[x]
            implies s2.marked_stops@.contains(RaptorStopID { id: x as usize }) by {
        if s2.tau_best@[x] < s1.tau_best@[x] {
        } else {
            let w = RaptorStopID { id: x as usize };
            assert(s1.marked_stops@.contains(w));
            let q1 = choose|q1: int| 0 <= q1 < s1.marked_stops@.len() && s1.marked_stops@[q1] == w;
            assert(s2.marked_stops@.contains(s1.marked_stops@[q1]));
        }
    }
}

proof fn lemma_update_tracks(a: RaptorState, b: RaptorState, stop: RaptorStopID, arrival: Seconds)
    requires
        marks_listed(&a),
        stop.id < a.marked@.len(),
        a.tau_best@.len() == a.marked@.len(),
        improves(&a, stop, arrival) ==> {
            &&& b.tau_current@ == a.tau_current@.update(stop.id as int, arrival)
            &&& b.tau_best@ == a.tau_best@.update(stop.id as int, arrival)
            &&& b.marked@ == a.marked@.update(stop.id as int, true)
            &&& b.marked_stops@ == if a.marked@[stop.id as int] {
                a.marked_stops@
            } else {
                a.marked_stops@.push(stop)
            }
            &&& b.departure_time == a.departure_time
        },
        !improves(&a, stop, arrival) ==> b == a,
    ensures
        tracks_marks(a, b),
{
    if improves(&a, stop, arrival) {
        assert forall|q: int| 0 <= q < a.marked_stops@.len() implies b.marked_stops@.contains(#[trigger] a.marked_stops@[q]) by {
            if !a.marked@[stop.id as int] {
                assert(b.marked_stops@[q] == a.marked_stops@[q]);
            }
        }
        if a.marked@[stop.id as int] {
            assert(a.marked_stops@.contains(RaptorStopID { id: stop.id }));
        } else {
            assert(b.marked_stops@[a.marked_stops@.len() as int] == stop);
        }
        assert(RaptorStopID { id: stop.id } == stop);
        if a.tau_current@ == a.tau_best@ {
            assert(b.tau_current@ =~= b.tau_best@);
        }
    } else {
        lemma_tracks_refl(a);
    }
}

proof fn lemma_step_tracks(s0: RaptorState, a: RaptorState, b: RaptorStopID, stop: RaptorStopID, arrival: Seconds, c: RaptorState)
    requires
        tracks_marks(s0, a),
        marks_listed(&a),
        stop.id < a.marked@.len(),
        a.tau_best@.len() == a.marked@.len(),
        s0.tau_best@.len() == a.tau_best@.len(),
        c.tau_best@.len() == a.tau_best@.len(),
        improves(&a, stop, arrival) ==> {
            &&& c.tau_current@ == a.tau_current@.update(stop.id as int, arrival)
            &&& c.tau_best@ == a.tau_best@.update(stop.id as int, arrival)
            &&& c.marked@ == a.marked@.update(stop.id as int, true)
            &&& c.marked_stops@ == if a.marked@[stop.id as int] {
                a.marked_stops@
            } else {
                a.marked_stops@.push(stop)
            }
            &&& c.departure_time == a.departure_time
        },
        !improves(&a, stop, arrival) ==> c == a,
        forall|x: int| 0 <= x < c.tau_best@.len() ==> #[trigger] c.tau_best@[x] <= a.tau_best@[x],
    ensures
        tracks_marks(s0, c),
{
    lemma_update_tracks(a, c, stop, arrival);
    lemma_tracks_trans(s0, a, c);
}

/// Every recorded parent leg ends at the stop it is recorded for, starts at a known
/// stop, is offered by the timetable, and ends no earlier than `dep`.
pub open spec fn parents_ok(
    tt: &RaptorTimetable,
    parent: Seq<Vec<Option<Leg>>>,
    n: nat,
    dep: Seconds,
) -> bool {
    forall|k: int, x: int|
        0 <= k < parent.len() && 0 <= x < n && (#[trigger] parent[k]@[x]) is Some ==> {
            let l = parent[k]@[x]->0;
            &&& l.destination_stop.id == x
            &&& l.origin_stop.id < n
            &&& leg_offered(tt, l)
            &&& l.leg_end_time >= dep
        }
}

/// The legs follow one another from stop to stop.
pub open spec fn chained(legs: Seq<Leg>) -> bool {
    forall|i: int|
        0 <= i < legs.len() - 1 ==> (#[trigger] legs[i]).destination_stop == legs[i + 1].origin_stop
}

/// The leg recorded for stop `x` in row `k`, if any, starts no earlier than `dep` and
/// no earlier than the end of the leg recorded at its start stop: in the previous row
/// for a ride, in the same row for a walk.
pub open spec fn leg_timed(parent: Seq<Vec<Option<Leg>>>, k: int, x: int, dep: Seconds) -> bool {
    parent[k]@[x] is Some ==> {
        let l = parent[k]@[x]->0;
        &&& l.leg_start_time >= dep
        &&& l.trip_id is Some ==> k >= 1 && (parent[k - 1]@[l.origin_stop.id as int] is None
            || parent[k - 1]@[l.origin_stop.id as int]->0.leg_end_time <= l.leg_start_time)
        &&& l.trip_id is None ==> (parent[k]@[l.origin_stop.id as int] is None
            || parent[k]@[l.origin_stop.id as int]->0.leg_end_time <= l.leg_start_time)
    }
}

/// Every recorded parent leg is timed, and the row of round 0 stays empty.
pub open spec fn parents_timed(parent: Seq<Vec<Option<Leg>>>, n: nat, dep: Seconds) -> bool {
    &&& forall|x: int| 0 <= x < n && parent.len() > 0 ==> (#[trigger] parent[0]@[x]) is None
    &&& forall|k: int, x: int| 0 <= k < parent.len() && 0 <= x < n ==> #[trigger] leg_timed(parent, k, x, dep)
}

/// In round `round`: later rows are empty, this round's legs end no later than the
/// round's times, last round's no later than the previous times, this round's walks
/// start no earlier than the best time at their start, and the origin has no parent
/// and keeps its time.
pub open spec fn round_timed(s: &RaptorState, origin: RaptorStopID, round: int, n: nat) -> bool {
    let parent = s.parent_leg@;
    &&& 1 <= round
    &&& origin.id < n
    &&& s.tau_best@[origin.id as int] <= s.departure_time
    &&& forall|x: int| 0 <= x < n ==> #[trigger] s.tau_prev@[x] >= s.departure_time
    &&& forall|x: int| 0 <= x < n ==> #[trigger] s.tau_current@[x] >= s.departure_time
    &&& forall|k: int, x: int| round < k < parent.len() && 0 <= x < n ==> (#[trigger] parent[k]@[x]) is None
    &&& forall|k: int| 0 <= k < parent.len() ==> (#[trigger] parent[k]@[origin.id as int]) is None
    &&& round < parent.len() ==> forall|x: int|
        0 <= x < n && (#[trigger] parent[round]@[x]) is Some ==> parent[round]@[x]->0.leg_end_time
            <= s.tau_current@[x]
    &&& round - 1 < parent.len() ==> forall|x: int|
        0 <= x < n && (#[trigger] parent[round - 1]@[x]) is Some ==> parent[round - 1]@[x]->0.leg_end_time
            <= s.tau_prev@[x]
    &&& round < parent.len() ==> forall|x: int|
        0 <= x < n && (#[trigger] parent[round]@[x]) is Some && parent[round]@[x]->0.trip_id is None
            ==> s.tau_best@[parent[round]@[x]->0.origin_stop.id as int] <= parent[round]@[x]->0.leg_start_time
}

/// Recording `leg` at `s` in row `r` keeps the parent legs timed.
proof fn lemma_record_keeps_parents_timed(
    op: Seq<Vec<Option<Leg>>>,
    np: Seq<Vec<Option<Leg>>>,
    r: int,
    s: int,
    leg: Leg,
    n: nat,
    dep: Seconds,
    tau_prev: Seq<Seconds>,
    tau_current: Seq<Seconds>,
    tau_best: Seq<Seconds>,
)
    requires
        parents_timed(op, n, dep),
        1 <= r < op.len(),
        0 <= s < n,
        forall|k: int| 0 <= k < op.len() ==> (#[trigger] op[k])@.len() == n,
        forall|k: int, x: int|
            0 <= k < op.len() && 0 <= x < n && (#[trigger] op[k]@[x]) is Some ==> op[k]@[x]->0.origin_stop.id < n,
        forall|k: int, x: int| r < k < op.len() && 0 <= x < n ==> (#[trigger] op[k]@[x]) is None,
        forall|x: int|
            0 <= x < n && (#[trigger] op[r]@[x]) is Some ==> op[r]@[x]->0.leg_end_time <= tau_current[x],
        forall|x: int|
            0 <= x < n && (#[trigger] op[r - 1]@[x]) is Some ==> op[r - 1]@[x]->0.leg_end_time <= tau_prev[x],
        forall|x: int|
            0 <= x < n && (#[trigger] op[r]@[x]) is Some && op[r]@[x]->0.trip_id is None
                ==> tau_best[op[r]@[x]->0.origin_stop.id as int] <= op[r]@[x]->0.leg_start_time,
        np.len() == op.len(),
        forall|k: int| 0 <= k < op.len() && k != r ==> #[trigger] np[k] == op[k],
        np[r]@ == op[r]@.update(s, Some(leg)),
        leg.leg_end_time < tau_best[s],
        leg.origin_stop.id < n,
        leg.leg_start_time >= dep,
        leg.trip_id is Some ==> leg.leg_start_time >= tau_prev[leg.origin_stop.id as int],
        leg.trip_id is None ==> (op[r]@[leg.origin_stop.id as int] is None || tau_current[leg.origin_stop.id as int]
            <= leg.leg_start_time) && leg.origin_stop.id != s,
    ensures
        parents_timed(np, n, dep),
{
    assert forall|x: int| 0 <= x < n && np.len() > 0 implies (#[trigger] np[0]@[x]) is None by {
        assert(np[0] == op[0]);
    }
    assert forall|k: int, x: int| 0 <= k < np.len() && 0 <= x < n implies #[trigger] leg_timed(np, k, x, dep) by {
        let l = np[k]@[x]->0;
        if np[k]@[x] is None {
        } else if k == r && x == s {
            assert(l == leg);
            if leg.trip_id is Some {
                assert(np[k - 1] == op[k - 1]);
            } else {
                assert(np[k]@[leg.origin_stop.id as int] == op[k]@[leg.origin_stop.id as int]);
            }
        } else {
            if k != r {
                assert(np[k] == op[k]);
            }
            assert(np[k]@[x] == op[k]@[x]);
            assert(op[k]@[x] is Some);
            assert(leg_timed(op, k, x, dep));
            let y = l.origin_stop.id as int;
            if l.trip_id is Some {
                if k - 1 != r {
                    assert(np[k - 1] == op[k - 1]);
                } else {
                    assert(op[k]@[x] is None);
                }
            } else if k != r {
                assert(np[k] == op[k]);
            } else if y != s {
                assert(np[k]@[y] == op[k]@[y]);
            }
        }
    }
}

/// `update` keeps the legs timed when a ride leaves no earlier than the previous round
/// reached its start, and a walk leaves at this round's time at its start.
proof fn lemma_update_keeps_timed(
    old_state: &RaptorState,
    new_state: &RaptorState,
    round: usize,
    stop: RaptorStopID,
    arrival_time: Seconds,
    leg: Leg,
    origin: RaptorStopID,
    n: nat,
)
    requires
        parents_timed(old_state.parent_leg@, n, old_state.departure_time),
        round_timed(old_state, origin, round as int, n),
        round < old_state.parent_leg@.len(),
        forall|k: int| 0 <= k < old_state.parent_leg@.len() ==> (#[trigger] old_state.parent_leg@[k])@.len() == n,
        forall|k: int, x: int|
            0 <= k < old_state.parent_leg@.len() && 0 <= x < n && (#[trigger] old_state.parent_leg@[k]@[x]) is Some
                ==> old_state.parent_leg@[k]@[x]->0.origin_stop.id < n,
        old_state.tau_current@.len() == n,
        old_state.tau_best@.len() == n,
        old_state.tau_prev@.len() == n,
        forall|x: int| 0 <= x < n ==> #[trigger] old_state.tau_best@[x] <= old_state.tau_current@[x],
        stop.id < n,
        leg.destination_stop == stop,
        leg.leg_end_time == arrival_time,
        leg.origin_stop.id < n,
        leg.leg_start_time >= old_state.departure_time,
        leg.trip_id is Some ==> leg.leg_start_time >= old_state.tau_prev@[leg.origin_stop.id as int],
        leg.trip_id is None ==> old_state.tau_best@[leg.origin_stop.id as int] <= leg.leg_start_time
            && (old_state.parent_leg@[round as int]@[leg.origin_stop.id as int] is None
            || old_state.tau_current@[leg.origin_stop.id as int] <= leg.leg_start_time)
            && arrival_time >= leg.leg_start_time,
        improves(old_state, stop, arrival_time) ==> {
            &&& new_state.tau_current@ == old_state.tau_current@.update(stop.id as int, arrival_time)
            &&& new_state.tau_best@ == old_state.tau_best@.update(stop.id as int, arrival_time)
            &&& new_state.parent_leg@.len() == old_state.parent_leg@.len()
            &&& forall|k: int|
                0 <= k < old_state.parent_leg@.len() && k != round ==> #[trigger] new_state.parent_leg@[k]
                    == old_state.parent_leg@[k]
            &&& new_state.parent_leg@[round as int]@ == old_state.parent_leg@[round as int]@.update(stop.id as int, Some(leg))
            &&& new_state.tau_prev == old_state.tau_prev
            &&& new_state.departure_time == old_state.departure_time
        },
        !improves(old_state, stop, arrival_time) ==> *new_state == *old_state,
    ensures
        parents_timed(new_state.parent_leg@, n, new_state.departure_time),
        round_timed(new_state, origin, round as int, n),
{
    if improves(old_state, stop, arrival_time) {
        let op = old_state.parent_leg@;
        let np = new_state.parent_leg@;
        let r = round as int;
        assert(stop.id != origin.id);
        if leg.trip_id is None {
            assert(leg.origin_stop.id != stop.id);
        }
        lemma_record_keeps_parents_timed(
            op,
            np,
            r,
            stop.id as int,
            leg,
            n,
            old_state.departure_time,
            old_state.tau_prev@,
            old_state.tau_current@,
            old_state.tau_best@,
        );
        assert forall|k: int, x: int| r < k < np.len() && 0 <= x < n implies (#[trigger] np[k]@[x]) is None by {
            assert(np[k] == op[k]);
        }
        assert forall|k: int| 0 <= k < np.len() implies (#[trigger] np[k]@[origin.id as int]) is None by {
            if k != r {
                assert(np[k] == op[k]);
            }
        }
        assert forall|x: int| 0 <= x < n && (#[trigger] np[r]@[x]) is Some implies np[r]@[x]->0.leg_end_time
            <= new_state.tau_current@[x] by {
            if x != stop.id {
                assert(op[r]@[x] is Some);
            }
        }
        assert(np[r - 1] == op[r - 1]);
        assert forall|x: int|
            0 <= x < n && (#[trigger] np[r]@[x]) is Some && np[r]@[x]->0.trip_id is None implies new_state.tau_best@[np[r]@[x]->0.origin_stop.id as int]
            <= np[r]@[x]->0.leg_start_time by {
            if x != stop.id {
                assert(op[r]@[x] is Some);
                assert(old_state.tau_best@[op[r]@[x]->0.origin_stop.id as int] <= op[r]@[x]->0.leg_start_time);
            }
        }
    }
}

/// Starting a round from the previous times keeps it timed when this round's legs end
/// no later than those times.
proof fn lemma_start_round_timed(old_state: &RaptorState, new_state: &RaptorState, origin: RaptorStopID, round: int, n: nat)
    requires
        round_timed(old_state, origin, round, n),
        new_state.tau_current@ == old_state.tau_prev@,
        new_state.tau_prev == old_state.tau_prev,
        new_state.tau_best == old_state.tau_best,
        new_state.parent_leg == old_state.parent_leg,
        new_state.departure_time == old_state.departure_time,
        round < old_state.parent_leg@.len() ==> forall|x: int|
            0 <= x < n && (#[trigger] old_state.parent_leg@[round]@[x]) is Some ==> old_state.parent_leg@[round]@[x]->0.leg_end_time
                <= old_state.tau_prev@[x],
    ensures
        round_timed(new_state, origin, round, n),
{
}

/// Ending a round makes its times the previous ones of the next round, whose row is
/// still empty.
proof fn lemma_finish_round_timed(old_state: &RaptorState, new_state: &RaptorState, origin: RaptorStopID, round: int, n: nat)
    requires
        round_timed(old_state, origin, round, n),
        new_state.tau_prev@ == old_state.tau_current@,
        new_state.tau_current == old_state.tau_current,
        new_state.tau_best == old_state.tau_best,
        new_state.parent_leg == old_state.parent_leg,
        new_state.departure_time == old_state.departure_time,
    ensures
        round_timed(new_state, origin, round + 1, n),
        round + 1 < new_state.parent_leg@.len() ==> forall|x: int|
            0 <= x < n ==> (#[trigger] new_state.parent_leg@[round + 1]@[x]) is None,
{
}

/// The entries `(route, stop, position)` of the routes serving `stop`, in their order.
pub open spec fn stop_entries(serving: Seq<RaptorRouteServingStop>, stop: RaptorStopID) -> Seq<
    (TimetableRouteID, RaptorStopID, usize),
> {
    serving.map_values(|e: RaptorRouteServingStop| (e.route_id, stop, e.stop_sequence))
}

/// The entries of the routes serving each of the `marked` stops, stop after stop.
pub open spec fn route_entries(tt: &RaptorTimetable, marked: Seq<RaptorStopID>) -> Seq<
    (TimetableRouteID, RaptorStopID, usize),
>
    decreases marked.len(),
{
    if marked.len() == 0 {
        Seq::empty()
    } else {
        route_entries(tt, marked.drop_last()) + stop_entries(
            tt.routes_serving_stops@[marked.last().id as int]@,
            marked.last(),
        )
    }
}

/// The `k`-th walk from `x`, started at `start`, leaves its target with a best time no
/// later than its arrival, or the destination with one no later than that arrival.
pub open spec fn walk_offered(tt: &RaptorTimetable, best: Seq<Seconds>, dest: RaptorStopID, x: int, k: int, start: int) -> bool {
    let w = tt.transfers@[x]@[k];
    best[w.to_stop.id as int] <= start + w.walk_time || best[dest.id as int] <= start + w.walk_time
}

/// The first trip, in the route's order, that leaves position `p` of route `r` at or
/// after `t0`.
pub open spec fn first_trip_from(tt: &RaptorTimetable, r: int, p: int, t0: Seconds) -> Option<int> {
    if exists|u: int|
        0 <= u < tt.routes@[r].trips@.len() && #[trigger] tt.departure_at(r, u, p) >= t0 && forall|v: int|
            0 <= v < u ==> tt.departure_at(r, v, p) < t0 {
        Some(
            choose|u: int|
                0 <= u < tt.routes@[r].trips@.len() && #[trigger] tt.departure_at(r, u, p) >= t0 && forall|v: int|
                    0 <= v < u ==> tt.departure_at(r, v, p) < t0,
        )
    } else {
        None
    }
}

/// The trip a scan of route `r` from position `from` rides after position `p`, with the
/// position where it boarded. At each position whose stop the previous round reached
/// (at the time `prev` holds), the scan boards the first trip leaving there no earlier,
/// if it has no trip yet or that one leaves there strictly before the trip it rides.
pub open spec fn carried(tt: &RaptorTimetable, r: int, prev: Seq<Seconds>, from: int, p: int) -> Option<(int, int)>
    decreases p - from,
{
    if p < from {
        None
    } else {
        let before = if p == from {
            None
        } else {
            carried(tt, r, prev, from, p - 1)
        };
        let t0 = prev[tt.routes@[r].stops@[p].id as int];
        let cand = if t0 < INFINITY {
            first_trip_from(tt, r, p, t0)
        } else {
            None
        };
        match cand {
            Some(u) => match before {
                None => Some((u, p)),
                Some(cb) => if tt.departure_at(r, u, p) < tt.departure_at(r, cb.0, p) {
                    Some((u, p))
                } else {
                    before
                },
            },
            None => before,
        }
    }
}

/// The stop at position `j` of route `r` holds a best time no later than the arrival
/// there of the trip `c` rides on (when that arrival is not before `dep`), or the
/// destination does.
pub open spec fn ride_offered(
    tt: &RaptorTimetable,
    best: Seq<Seconds>,
    dest: RaptorStopID,
    r: int,
    c: Option<(int, int)>,
    j: int,
    dep: Seconds,
) -> bool {
    match c {
        Some(tb) => tt.arrival_at(r, tb.0, j) >= dep ==> best[tt.routes@[r].stops@[j].id as int]
            <= tt.arrival_at(r, tb.0, j) || best[dest.id as int] <= tt.arrival_at(r, tb.0, j),
        None => true,
    }
}

/// The trip a scan rides, with its boarding position, as the scan holds them.
pub open spec fn held_trip(current: Option<usize>, boarded: Option<(RaptorStopID, usize)>) -> Option<(int, int)> {
    match (current, boarded) {
        (Some(t), Some(b)) => Some((t as int, b.1 as int)),
        _ => None,
    }
}

/// What `earliest_trip` finds is the first trip leaving at or after the given time.
proof fn lemma_first_trip(tt: &RaptorTimetable, r: int, p: int, t0: Seconds, found: Option<usize>)
    requires
        0 <= r < tt.routes@.len(),
        match found {
            Some(t) => {
                &&& t < tt.routes@[r].trips@.len()
                &&& tt.departure_at(r, t as int, p) >= t0
                &&& forall|u: int| 0 <= u < t ==> #[trigger] tt.departure_at(r, u, p) < t0
            },
            None => forall|u: int| 0 <= u < tt.routes@[r].trips@.len() ==> #[trigger] tt.departure_at(r, u, p) < t0,
        },
    ensures
        first_trip_from(tt, r, p, t0) == match found {
            Some(t) => Some(t as int),
            None => None::<int>,
        },
{
    match found {
        Some(t) => {
            assert(tt.departure_at(r, t as int, p) >= t0);
            let c = choose|u: int|
                0 <= u < tt.routes@[r].trips@.len() && #[trigger] tt.departure_at(r, u, p) >= t0 && forall|v: int|
                    0 <= v < u ==> tt.departure_at(r, v, p) < t0;
            if c < t {
                assert(tt.departure_at(r, c, p) < t0);
            } else if c > t {
                assert(tt.departure_at(r, t as int, p) < t0);
            }
        },
        None => {},
    }
}

/// Trips of route `r` keep their order at every position, both leaving and arriving.
pub open spec fn route_fifo(tt: &RaptorTimetable, r: int) -> bool {
    forall|u: int, v: int, p: int|
        0 <= u <= v < tt.routes@[r].trips@.len() && 0 <= p < tt.routes@[r].stops@.len() ==> #[trigger] tt.departure_at(
            r,
            u,
            p,
        ) <= #[trigger] tt.departure_at(r, v, p) && tt.arrival_at(r, u, p) <= tt.arrival_at(r, v, p)
}

/// Riding trip `t` of route `r` from the origin, boarded where the route first meets the
/// origin (entry `k` of the routes serving it) no earlier than `dep`, to `dest` at
/// position `j`, on a route whose trips keep their order, in a timetable whose trips run
/// forward in time.
pub open spec fn ride_to(
    tt: &RaptorTimetable,
    origin: RaptorStopID,
    dep: Seconds,
    dest: RaptorStopID,
    r: int,
    t: int,
    i: int,
    j: int,
    k: int,
) -> bool {
    &&& direct_ride(tt, origin, dep, r, t, i, j, k)
    &&& route_fifo(tt, r)
    &&& forall|p: int| 0 <= p < i ==> tt.routes@[r].stops@[p] != origin
    &&& tt.routes@[r].stops@[j] == dest
    &&& tt.arrival_at(r, t, j) < INFINITY
    &&& tt.trips_forward_in_time()
}

/// `best` is no later than the arrival of every such ride on a route numbered below
/// `upto`.
pub open spec fn rides_below(
    tt: &RaptorTimetable,
    origin: RaptorStopID,
    dep: Seconds,
    dest: RaptorStopID,
    best: Seconds,
    upto: int,
) -> bool {
    forall|r: int, t: int, i: int, j: int, k: int|
        #[trigger] ride_to(tt, origin, dep, dest, r, t, i, j, k) && r < upto ==> best <= tt.arrival_at(r, t, j)
}

/// The queue scans the route of `e` from `e`'s position or from an earlier one.
pub open spec fn queued_at(queue: Seq<Option<(RaptorStopID, usize)>>, e: RaptorRouteServingStop) -> bool {
    &&& 0 <= e.route_id.id < queue.len()
    &&& queue[e.route_id.id as int] matches Some(q) && q.1 <= e.stop_sequence
}

/// A trip leaving position `p` of route `r` at or after `t0` makes the first such trip
/// exist, no later in the route's order.
proof fn lemma_first_trip_exists(tt: &RaptorTimetable, r: int, p: int, t0: Seconds, t: int)
    requires
        0 <= r < tt.routes@.len(),
        0 <= t < tt.routes@[r].trips@.len(),
        tt.departure_at(r, t, p) >= t0,
    ensures
        first_trip_from(tt, r, p, t0) matches Some(u) && 0 <= u <= t && tt.departure_at(r, u, p) >= t0,
    decreases t,
{
    if forall|v: int| 0 <= v < t ==> tt.departure_at(r, v, p) < t0 {
        assert(0 <= t < tt.routes@[r].trips@.len() && tt.departure_at(r, t, p) >= t0 && forall|v: int|
            0 <= v < t ==> tt.departure_at(r, v, p) < t0);
        let u = choose|u: int|
            0 <= u < tt.routes@[r].trips@.len() && #[trigger] tt.departure_at(r, u, p) >= t0 && forall|v: int|
                0 <= v < u ==> tt.departure_at(r, v, p) < t0;
        if u > t {
            assert(tt.departure_at(r, t, p) < t0);
        }
    } else {
        let v = choose|v: int| 0 <= v < t && tt.departure_at(r, v, p) >= t0;
        lemma_first_trip_exists(tt, r, p, t0, v);
    }
}

/// What a first trip found is: a trip of the route leaving `p` at or after `t0`.
proof fn lemma_first_trip_found(tt: &RaptorTimetable, r: int, p: int, t0: Seconds)
    ensures
        first_trip_from(tt, r, p, t0) matches Some(u) ==> 0 <= u < tt.routes@[r].trips@.len()
            && tt.departure_at(r, u, p) >= t0,
{
}

/// In the first round only the origin is reached, at `dep`. A scan of route `r` then
/// carries no trip before position `i`, where the route first meets the origin; from `i`
/// on it carries a trip boarded at the origin at or after `dep`, no later in the route's
/// order than any trip leaving `i` at or after `dep`.
proof fn lemma_carried_from_origin(
    tt: &RaptorTimetable,
    r: int,
    prev: Seq<Seconds>,
    from: int,
    p: int,
    origin: RaptorStopID,
    dep: Seconds,
    t: int,
    i: int,
)
    requires
        tt.wf(),
        0 <= r < tt.routes@.len(),
        0 <= from <= p < tt.routes@[r].stops@.len(),
        from <= i < tt.routes@[r].stops@.len(),
        tt.routes@[r].stops@[i] == origin,
        forall|q: int| 0 <= q < i ==> tt.routes@[r].stops@[q] != origin,
        prev.len() == tt.stops@.len(),
        origin.id < tt.stops@.len(),
        prev[origin.id as int] == dep,
        dep < INFINITY,
        forall|x: int| 0 <= x < prev.len() && x != origin.id ==> #[trigger] prev[x] == INFINITY,
        0 <= t < tt.routes@[r].trips@.len(),
        tt.departure_at(r, t, i) >= dep,
        route_fifo(tt, r),
    ensures
        p < i ==> carried(tt, r, prev, from, p) is None,
        p >= i ==> (carried(tt, r, prev, from, p) matches Some(c) && 0 <= c.0 <= t && i <= c.1 <= p
            && tt.routes@[r].stops@[c.1] == origin && tt.departure_at(r, c.0, c.1) >= dep),
    decreases p - from,
{
    if p > from {
        lemma_carried_from_origin(tt, r, prev, from, p - 1, origin, dep, t, i);
    }
    let s = tt.routes@[r].stops@[p];
    assert(s.id < tt.stops@.len());
    lemma_first_trip_found(tt, r, p, dep);
    if p == i {
        lemma_first_trip_exists(tt, r, i, dep, t);
    } else if s == origin {
        let cand = first_trip_from(tt, r, p, dep);
        if p > i && p > from {
            let cb = carried(tt, r, prev, from, p - 1)->0;
            match cand {
                Some(u) => {
                    if tt.departure_at(r, u, p) < tt.departure_at(r, cb.0, p) {
                        if u > cb.0 {
                            assert(tt.departure_at(r, cb.0, p) <= tt.departure_at(r, u, p));
                        }
                    }
                },
                None => {},
            }
        }
    } else {
        assert(prev[s.id as int] == INFINITY);
    }
}

/// A marked origin, first in the list, brings every route serving it into the entries.
proof fn lemma_origin_entries(tt: &RaptorTimetable, marked: Seq<RaptorStopID>, origin: RaptorStopID, k: int) -> (idx: int)
    requires
        tt.wf(),
        marked.len() >= 1,
        marked[0] == origin,
        origin.id < tt.stops@.len(),
        0 <= k < tt.routes_serving_stops@[origin.id as int]@.len(),
    ensures
        0 <= idx < route_entries(tt, marked).len(),
        route_entries(tt, marked)[idx] == (
            tt.routes_serving_stops@[origin.id as int]@[k].route_id,
            origin,
            tt.routes_serving_stops@[origin.id as int]@[k].stop_sequence,
        ),
    decreases marked.len(),
{
    let e = tt.routes_serving_stops@[origin.id as int]@[k];
    if marked.len() == 1 {
        assert(marked.drop_last().len() == 0);
        assert(route_entries(tt, marked.drop_last()) =~= Seq::empty());
        assert(marked.last() == origin);
        let se = stop_entries(tt.routes_serving_stops@[origin.id as int]@, origin);
        assert(route_entries(tt, marked) =~= se);
        assert(se[k] == (e.route_id, origin, e.stop_sequence));
        k
    } else {
        let idx = lemma_origin_entries(tt, marked.drop_last(), origin, k);
        let pre = route_entries(tt, marked.drop_last());
        assert(route_entries(tt, marked) == pre + stop_entries(
            tt.routes_serving_stops@[marked.last().id as int]@,
            marked.last(),
        ));
        assert(route_entries(tt, marked)[idx] == pre[idx]);
        idx
    }
}

/// After route `r` is scanned in the first round, from where the queue puts it, every
/// ride from the origin on a route up to `r` is bounded at the destination.
proof fn lemma_scan_rides(
    tt: &RaptorTimetable,
    origin: RaptorStopID,
    dep: Seconds,
    dest: RaptorStopID,
    queue: Seq<Option<(RaptorStopID, usize)>>,
    prev: Seq<Seconds>,
    before: Seconds,
    after: Seq<Seconds>,
    r: int,
)
    requires
        tt.wf(),
        origin.id < tt.stops@.len(),
        dest.id < tt.stops@.len(),
        origin != dest,
        prev.len() == tt.stops@.len(),
        after.len() == tt.stops@.len(),
        prev[origin.id as int] == dep,
        forall|x: int| 0 <= x < prev.len() && x != origin.id ==> #[trigger] prev[x] == INFINITY,
        0 <= r < tt.routes@.len(),
        queue.len() == tt.routes@.len(),
        forall|k: int|
            0 <= k < tt.routes_serving_stops@[origin.id as int]@.len() ==> queued_at(
                queue,
                #[trigger] tt.routes_serving_stops@[origin.id as int]@[k],
            ),
        rides_below(tt, origin, dep, dest, before, r),
        after[dest.id as int] <= before,
        queue[r] matches Some(q) ==> forall|j: int|
            q.1 <= j < tt.routes@[r].stops@.len() ==> #[trigger] ride_offered(
                tt,
                after,
                dest,
                r,
                carried(tt, r, prev, q.1 as int, j),
                j,
                dep,
            ),
    ensures
        rides_below(tt, origin, dep, dest, after[dest.id as int], r + 1),
{
    assert forall|r2: int, t: int, i: int, j: int, k: int|
        #[trigger] ride_to(tt, origin, dep, dest, r2, t, i, j, k) && r2 < r + 1 implies after[dest.id as int]
        <= tt.arrival_at(r2, t, j) by {
        if r2 < r {
            assert(before <= tt.arrival_at(r2, t, j));
        } else {
            let e = tt.routes_serving_stops@[origin.id as int]@[k];
            assert(queued_at(queue, e));
            let q = queue[r]->0;
            assert(q.1 <= i);
            assert(tt.routes@[r].trips@[t].stop_times@.len() == tt.routes@[r].stops@.len());
            assert(tt.departure_at(r, t, i) <= tt.arrival_at(r, t, j));
            lemma_carried_from_origin(tt, r, prev, q.1 as int, j, origin, dep, t, i);
            let c = carried(tt, r, prev, q.1 as int, j)->0;
            assert(ride_offered(tt, after, dest, r, carried(tt, r, prev, q.1 as int, j), j, dep));
            assert(c.1 != j);
            assert(tt.routes@[r].trips@[c.0].stop_times@.len() == tt.routes@[r].stops@.len());
            assert(tt.departure_at(r, c.0, c.1) <= tt.arrival_at(r, c.0, j));
            assert(tt.departure_at(r, c.0, j) <= tt.departure_at(r, t, j) && tt.arrival_at(r, c.0, j)
                <= tt.arrival_at(r, t, j));
        }
    }
}

/// Every leg rides a trip.
pub open spec fn all_rides(legs: Seq<Leg>) -> bool {
    forall|i: int| 0 <= i < legs.len() ==> (#[trigger] legs[i]).trip_id is Some
}

/// Along route `r`, a trip later in the route's order leaves every stop strictly later
/// and arrives nowhere earlier.
pub open spec fn trips_in_order(tt: &RaptorTimetable, r: int) -> bool {
    forall|u: int, v: int, p: int|
        0 <= u < v < tt.routes@[r].trips@.len() && 0 <= p < tt.routes@[r].stops@.len() ==> #[trigger] tt.departure_at(
            r,
            u,
            p,
        ) < #[trigger] tt.departure_at(r, v, p) && tt.arrival_at(r, u, p) <= tt.arrival_at(r, v, p)
}

/// No trip that leaves a stop at or after `dep` arrives there before `dep`.
pub open spec fn no_wait_across(tt: &RaptorTimetable, dep: Seconds) -> bool {
    forall|r: int, t: int, p: int|
        0 <= r < tt.routes@.len() && 0 <= t < tt.routes@[r].trips@.len() && 0 <= p
            < tt.routes@[r].trips@[t].stop_times@.len() && #[trigger] tt.departure_at(r, t, p) >= dep
            ==> tt.arrival_at(r, t, p) >= dep
}

/// The conditions under which the simple search finds the earliest arrival over
/// journeys of rides: every position of a route is listed among the routes serving its
/// stop, the trips of each route keep their order (strictly at departures), trips run
/// forward in time, no trip waits at a stop across the departure time, and the origin
/// has no walks.
pub open spec fn rides_searchable(tt: &RaptorTimetable, origin: RaptorStopID, dep: Seconds) -> bool {
    &&& serving_complete(tt)
    &&& forall|r: int| 0 <= r < tt.routes@.len() ==> #[trigger] trips_in_order(tt, r)
    &&& tt.trips_forward_in_time()
    &&& no_wait_across(tt, dep)
    &&& tt.transfers@[origin.id as int]@.len() == 0
}

/// At the stop where every journey of rides (at most `k` of them, from `origin` leaving
/// at `dep`) ends, `best` is no later than its arrival, or the destination's is.
pub open spec fn capped_bounds(
    tt: &RaptorTimetable,
    origin: RaptorStopID,
    dep: Seconds,
    best: Seq<Seconds>,
    d: RaptorStopID,
    k: nat,
) -> bool {
    forall|legs: Seq<Leg>, p: RaptorStopID, a: Seconds|
        #[trigger] feasible_journey(tt, origin, dep, legs, p, a) && all_rides(legs) && legs.len() <= k && a
            < INFINITY ==> best[p.id as int] <= a || best[d.id as int] <= a
}

/// Every trip of a route below `upto` leaving stop `x` at or after `from` reaches each
/// later stop no earlier than `best` holds there, or than the destination's best time.
pub open spec fn cexhausted(
    tt: &RaptorTimetable,
    best: Seq<Seconds>,
    d: RaptorStopID,
    x: int,
    from: Seconds,
    upto: int,
) -> bool {
    forall|r: int, t: int, i: int, j: int|
        0 <= r < upto && r < tt.routes@.len() && 0 <= t < tt.routes@[r].trips@.len() && 0 <= i < j
            < tt.routes@[r].stops@.len() && tt.routes@[r].stops@[i].id == x && from
            <= #[trigger] tt.departure_at(r, t, i) ==> best[tt.routes@[r].stops@[j].id as int]
            <= #[trigger] tt.arrival_at(r, t, j) || best[d.id as int] <= tt.arrival_at(r, t, j)
}

/// Every reached stop is exhausted from its time, or was reached at that time in the
/// previous round and is marked.
pub open spec fn csettled(
    tt: &RaptorTimetable,
    best: Seq<Seconds>,
    prev: Seq<Seconds>,
    marked: Seq<RaptorStopID>,
    d: RaptorStopID,
) -> bool {
    forall|x: int|
        #![trigger best[x]]
        0 <= x < best.len() && best[x] != INFINITY ==> cexhausted(tt, best, d, x, best[x], tt.routes@.len() as int)
            || (prev[x] == best[x] && marked.contains(RaptorStopID { id: x as usize }))
}

/// Every stop marked at the start of a round, at its best time then, is exhausted on the
/// routes below `upto` by the times `best`.
pub open spec fn cmarked_exhausted(
    tt: &RaptorTimetable,
    best0: Seq<Seconds>,
    prev: Seq<Seconds>,
    marked: Seq<RaptorStopID>,
    best: Seq<Seconds>,
    d: RaptorStopID,
    upto: int,
) -> bool {
    forall|x: int|
        0 <= x < best0.len() && best0[x] != INFINITY && prev[x] == best0[x] && marked.contains(
            RaptorStopID { id: x as usize },
        ) ==> #[trigger] cexhausted(tt, best, d, x, best0[x], upto)
}

/// Lower times keep a stop exhausted.
proof fn lemma_cexhausted_lower(
    tt: &RaptorTimetable,
    a: Seq<Seconds>,
    b: Seq<Seconds>,
    d: RaptorStopID,
    x: int,
    from: Seconds,
    upto: int,
)
    requires
        tt.wf(),
        d.id < tt.stops@.len(),
        cexhausted(tt, a, d, x, from, upto),
        a.len() == tt.stops@.len(),
        b.len() == a.len(),
        forall|y: int| 0 <= y < b.len() ==> #[trigger] b[y] <= a[y],
    ensures
        cexhausted(tt, b, d, x, from, upto),
{
    assert forall|r: int, t: int, i: int, j: int|
        0 <= r < upto && r < tt.routes@.len() && 0 <= t < tt.routes@[r].trips@.len() && 0 <= i < j
            < tt.routes@[r].stops@.len() && tt.routes@[r].stops@[i].id == x && from
            <= #[trigger] tt.departure_at(r, t, i) implies b[tt.routes@[r].stops@[j].id as int]
            <= #[trigger] tt.arrival_at(r, t, j) || b[d.id as int] <= tt.arrival_at(r, t, j) by {
        assert(tt.routes@[r].stops@[j].id < tt.stops@.len());
        assert(b[d.id as int] <= a[d.id as int]);
    }
}

/// The trip a scan holds is one it boarded: at a position from `from` on whose stop the
/// previous round reached, leaving there no earlier than that time.
proof fn lemma_carried_props(tt: &RaptorTimetable, r: int, prev: Seq<Seconds>, from: int, p: int)
    requires
        tt.wf(),
        0 <= r < tt.routes@.len(),
        p < tt.routes@[r].stops@.len(),
    ensures
        carried(tt, r, prev, from, p) matches Some(c) ==> from <= c.1 <= p && 0 <= c.0 < tt.routes@[r].trips@.len()
            && prev[tt.routes@[r].stops@[c.1].id as int] < INFINITY && tt.departure_at(r, c.0, c.1)
            >= prev[tt.routes@[r].stops@[c.1].id as int],
    decreases p - from,
{
    if p > from {
        lemma_carried_props(tt, r, prev, from, p - 1);
    }
    if p >= from {
        let t0 = prev[tt.routes@[r].stops@[p].id as int];
        lemma_first_trip_found(tt, r, p, t0);
    }
}

/// Where trips keep their order, the trip a scan holds at a position is no later in the
/// route's order than the one it held before, nor than the first trip it could board
/// there.
proof fn lemma_carried_step(tt: &RaptorTimetable, r: int, prev: Seq<Seconds>, from: int, j: int)
    requires
        tt.wf(),
        0 <= r < tt.routes@.len(),
        trips_in_order(tt, r),
        0 <= from <= j < tt.routes@[r].stops@.len(),
    ensures
        ({
            let t0 = prev[tt.routes@[r].stops@[j].id as int];
            let cand = if t0 < INFINITY {
                first_trip_from(tt, r, j, t0)
            } else {
                None
            };
            let before = if j == from {
                None
            } else {
                carried(tt, r, prev, from, j - 1)
            };
            &&& cand matches Some(u) ==> (carried(tt, r, prev, from, j) matches Some(c) && c.0 <= u)
            &&& before matches Some(cb) ==> (carried(tt, r, prev, from, j) matches Some(c) && c.0 <= cb.0)
        }),
{
    let t0 = prev[tt.routes@[r].stops@[j].id as int];
    lemma_first_trip_found(tt, r, j, t0);
    if j > from {
        lemma_carried_props(tt, r, prev, from, j - 1);
    }
    let before = if j == from {
        None
    } else {
        carried(tt, r, prev, from, j - 1)
    };
    let cand = if t0 < INFINITY {
        first_trip_from(tt, r, j, t0)
    } else {
        None
    };
    assert(carried(tt, r, prev, from, j) == match cand {
        Some(u) => match before {
            None => Some((u, j)),
            Some(cb) => if tt.departure_at(r, u, j) < tt.departure_at(r, cb.0, j) {
                Some((u, j))
            } else {
                before
            },
        },
        None => before,
    });
    if let Some(u) = cand {
        if let Some(cb) = before {
            if tt.departure_at(r, u, j) < tt.departure_at(r, cb.0, j) {
                if u > cb.0 {
                    assert(tt.departure_at(r, cb.0, j) < tt.departure_at(r, u, j));
                }
            } else {
                if cb.0 > u {
                    assert(tt.departure_at(r, u, j) < tt.departure_at(r, cb.0, j));
                }
            }
        }
    }
}

/// Where trips keep their order, a scan holds, from any position where some trip `t`
/// could be boarded on, a trip no later than `t` in the route's order.
proof fn lemma_carried_min(tt: &RaptorTimetable, r: int, prev: Seq<Seconds>, from: int, i: int, j: int, t: int)
    requires
        tt.wf(),
        0 <= r < tt.routes@.len(),
        trips_in_order(tt, r),
        0 <= from <= i <= j < tt.routes@[r].stops@.len(),
        prev[tt.routes@[r].stops@[i].id as int] < INFINITY,
        0 <= t < tt.routes@[r].trips@.len(),
        tt.departure_at(r, t, i) >= prev[tt.routes@[r].stops@[i].id as int],
    ensures
        carried(tt, r, prev, from, j) matches Some(c) && c.0 <= t,
    decreases j - i,
{
    lemma_carried_step(tt, r, prev, from, j);
    if j > i {
        lemma_carried_min(tt, r, prev, from, i, j - 1, t);
    } else {
        let t0 = prev[tt.routes@[r].stops@[i].id as int];
        lemma_first_trip_exists(tt, r, i, t0, t);
    }
}

/// Any marked stop brings every route serving it into the entries.
proof fn lemma_marked_entries(tt: &RaptorTimetable, marked: Seq<RaptorStopID>, q: int, k: int) -> (idx: int)
    requires
        tt.wf(),
        0 <= q < marked.len(),
        marked[q].id < tt.stops@.len(),
        0 <= k < tt.routes_serving_stops@[marked[q].id as int]@.len(),
    ensures
        0 <= idx < route_entries(tt, marked).len(),
        route_entries(tt, marked)[idx] == (
            tt.routes_serving_stops@[marked[q].id as int]@[k].route_id,
            marked[q],
            tt.routes_serving_stops@[marked[q].id as int]@[k].stop_sequence,
        ),
    decreases marked.len(),
{
    let pre = route_entries(tt, marked.drop_last());
    let se = stop_entries(tt.routes_serving_stops@[marked.last().id as int]@, marked.last());
    assert(route_entries(tt, marked) == pre + se);
    if q == marked.len() - 1 {
        assert(marked.last() == marked[q]);
        assert((pre + se)[pre.len() + k] == se[k]);
        pre.len() + k
    } else {
        assert(marked.drop_last()[q] == marked[q]);
        let idx = lemma_marked_entries(tt, marked.drop_last(), q, k);
        assert((pre + se)[idx] == pre[idx]);
        idx
    }
}


/// Scanning route `r` from where the queue puts it exhausts, on `r`, every stop marked at
/// the start of the round at its best time then.
proof fn lemma_scan_cexhausts(
    tt: &RaptorTimetable,
    queue: Seq<Option<(RaptorStopID, usize)>>,
    marked: Seq<RaptorStopID>,
    prev: Seq<Seconds>,
    best0: Seq<Seconds>,
    before: Seq<Seconds>,
    after: Seq<Seconds>,
    d: RaptorStopID,
    r: int,
    dep: Seconds,
)
    requires
        tt.wf(),
        serving_complete(tt),
        tt.trips_forward_in_time(),
        no_wait_across(tt, dep),
        0 <= r < tt.routes@.len(),
        trips_in_order(tt, r),
        d.id < tt.stops@.len(),
        queue.len() == tt.routes@.len(),
        forall|m: int| 0 <= m < marked.len() ==> (#[trigger] marked[m]).id < tt.stops@.len(),
        forall|m: int, k: int|
            0 <= m < marked.len() && 0 <= k < tt.routes_serving_stops@[marked[m].id as int]@.len() ==> queued_at(
                queue,
                #[trigger] tt.routes_serving_stops@[(#[trigger] marked[m]).id as int]@[k],
            ),
        prev.len() == tt.stops@.len(),
        best0.len() == tt.stops@.len(),
        before.len() == tt.stops@.len(),
        after.len() == tt.stops@.len(),
        forall|y: int| 0 <= y < prev.len() ==> #[trigger] prev[y] >= dep,
        cmarked_exhausted(tt, best0, prev, marked, before, d, r),
        forall|y: int| 0 <= y < after.len() ==> #[trigger] after[y] <= before[y],
        queue[r] matches Some(q) ==> forall|j: int|
            q.1 <= j < tt.routes@[r].stops@.len() ==> #[trigger] ride_offered(
                tt,
                after,
                d,
                r,
                carried(tt, r, prev, q.1 as int, j),
                j,
                dep,
            ),
    ensures
        cmarked_exhausted(tt, best0, prev, marked, after, d, r + 1),
{
    assert forall|x: int|
        0 <= x < best0.len() && best0[x] != INFINITY && prev[x] == best0[x] && marked.contains(
            RaptorStopID { id: x as usize },
        ) implies #[trigger] cexhausted(tt, after, d, x, best0[x], r + 1) by {
        lemma_cexhausted_lower(tt, before, after, d, x, best0[x], r);
        assert forall|r2: int, t: int, i: int, j: int|
            0 <= r2 < r + 1 && r2 < tt.routes@.len() && 0 <= t < tt.routes@[r2].trips@.len() && 0 <= i < j
                < tt.routes@[r2].stops@.len() && tt.routes@[r2].stops@[i].id == x && best0[x]
                <= #[trigger] tt.departure_at(r2, t, i) implies after[tt.routes@[r2].stops@[j].id as int]
                <= #[trigger] tt.arrival_at(r2, t, j) || after[d.id as int] <= tt.arrival_at(r2, t, j) by {
            if r2 == r {
                let m = choose|m: int| 0 <= m < marked.len() && marked[m] == RaptorStopID { id: x as usize };
                assert(position_listed(tt, r, i));
                let k = choose|k: int|
                    0 <= k < tt.routes_serving_stops@[x]@.len() && (#[trigger] tt.routes_serving_stops@[x]@[k]).route_id.id
                        == r && tt.routes_serving_stops@[x]@[k].stop_sequence == i;
                assert(marked[m].id == x);
                assert(queued_at(queue, tt.routes_serving_stops@[marked[m].id as int]@[k]));
                let q = queue[r]->0;
                assert(q.1 <= i);
                assert(tt.routes@[r].stops@[i].id < tt.stops@.len());
                lemma_carried_min(tt, r, prev, q.1 as int, i, j, t);
                lemma_carried_props(tt, r, prev, q.1 as int, j);
                let c = carried(tt, r, prev, q.1 as int, j)->0;
                assert(ride_offered(tt, after, d, r, carried(tt, r, prev, q.1 as int, j), j, dep));
                let sb = tt.routes@[r].stops@[c.1];
                assert(sb.id < tt.stops@.len());
                assert(prev[sb.id as int] >= dep);
                assert(tt.routes@[r].trips@[c.0].stop_times@.len() == tt.routes@[r].stops@.len());
                if c.1 < j {
                    assert(tt.departure_at(r, c.0, c.1) <= tt.arrival_at(r, c.0, j));
                } else {
                    assert(tt.departure_at(r, c.0, j) >= dep);
                }
                assert(tt.arrival_at(r, c.0, j) >= dep);
                if c.0 < t {
                    assert(tt.departure_at(r, c.0, j) < tt.departure_at(r, t, j));
                }
                assert(tt.arrival_at(r, c.0, j) <= tt.arrival_at(r, t, j));
            } else {
                assert(cexhausted(tt, after, d, x, best0[x], r));
            }
        }
    }
}

/// A round that exhausts the stops marked at its start extends the bound on journeys of
/// rides by one ride.
proof fn lemma_round_cbounds(
    tt: &RaptorTimetable,
    origin: RaptorStopID,
    dep: Seconds,
    best0: Seq<Seconds>,
    prev: Seq<Seconds>,
    marked: Seq<RaptorStopID>,
    best1: Seq<Seconds>,
    d: RaptorStopID,
    k: nat,
)
    requires
        tt.wf(),
        tt.trips_forward_in_time(),
        origin.id < tt.stops@.len(),
        d.id < tt.stops@.len(),
        best0.len() == tt.stops@.len(),
        best1.len() == tt.stops@.len(),
        prev.len() == tt.stops@.len(),
        capped_bounds(tt, origin, dep, best0, d, k),
        csettled(tt, best0, prev, marked, d),
        forall|y: int| 0 <= y < best1.len() ==> #[trigger] best1[y] <= best0[y],
        cmarked_exhausted(tt, best0, prev, marked, best1, d, tt.routes@.len() as int),
    ensures
        capped_bounds(tt, origin, dep, best1, d, k + 1),
{
    let nr = tt.routes@.len() as int;
    assert forall|legs: Seq<Leg>, p: RaptorStopID, a: Seconds|
        #[trigger] feasible_journey(tt, origin, dep, legs, p, a) && all_rides(legs) && legs.len() <= k + 1 && a
            < INFINITY implies best1[p.id as int] <= a || best1[d.id as int] <= a by {
        lemma_journey_ends_at_stop(tt, origin, dep, legs, p, a);
        if legs.len() <= k {
            assert(best0[p.id as int] <= a || best0[d.id as int] <= a);
        } else {
            let pa = lemma_journey_prefix(tt, origin, dep, legs, p, a);
            let pre = legs.drop_last();
            let last = legs.last();
            assert(legs[legs.len() - 1] == last);
            assert(last.trip_id is Some);
            assert forall|q: int| 0 <= q < pre.len() implies (#[trigger] pre[q]).trip_id is Some by {
                assert(pre[q] == legs[q]);
            }
            assert(leg_in_timetable(tt, last));
            let (r, t, i, j) = choose|r: int, t: int, i: int, j: int|
                #![trigger tt.departure_at(r, t, i), tt.arrival_at(r, t, j)]
                0 <= r < tt.routes@.len() && 0 <= t < tt.routes@[r].trips@.len() && 0 <= i < j
                    < tt.routes@[r].stops@.len() && tt.routes@[r].trips@[t].trip_id == last.trip_id->0
                    && tt.routes@[r].stops@[i] == last.origin_stop && tt.routes@[r].stops@[j]
                    == last.destination_stop && tt.departure_at(r, t, i) == last.leg_start_time
                    && tt.arrival_at(r, t, j) == last.leg_end_time;
            assert(tt.routes@[r].trips@[t].stop_times@.len() == tt.routes@[r].stops@.len());
            assert(tt.departure_at(r, t, i) <= tt.arrival_at(r, t, j));
            let x = last.origin_stop.id as int;
            assert(tt.routes@[r].stops@[i].id < tt.stops@.len());
            assert(tt.routes@[r].stops@[j].id < tt.stops@.len());
            assert(feasible_journey(tt, origin, dep, pre, last.origin_stop, pa));
            assert(best0[x] <= pa || best0[d.id as int] <= pa);
            if best0[d.id as int] <= pa {
                assert(best1[d.id as int] <= a);
            } else {
                assert(best0[x] != INFINITY);
                if cexhausted(tt, best0, d, x, best0[x], nr) {
                    assert(best0[tt.routes@[r].stops@[j].id as int] <= tt.arrival_at(r, t, j) || best0[d.id as int]
                        <= tt.arrival_at(r, t, j));
                    assert(best1[tt.routes@[r].stops@[j].id as int] <= best0[tt.routes@[r].stops@[j].id as int]);
                    assert(best1[d.id as int] <= best0[d.id as int]);
                } else {
                    assert(prev[x] == best0[x] && marked.contains(RaptorStopID { id: x as usize }));
                    assert(cexhausted(tt, best1, d, x, best0[x], nr));
                    assert(best1[tt.routes@[r].stops@[j].id as int] <= tt.arrival_at(r, t, j) || best1[d.id as int]
                        <= tt.arrival_at(r, t, j));
                }
            }
        }
    }
}

/// Once every reached stop is exhausted, the bound holds for journeys of any number of
/// rides.
proof fn lemma_cbounds_all(
    tt: &RaptorTimetable,
    origin: RaptorStopID,
    dep: Seconds,
    best: Seq<Seconds>,
    d: RaptorStopID,
    k: nat,
    m: nat,
)
    requires
        tt.wf(),
        tt.trips_forward_in_time(),
        origin.id < tt.stops@.len(),
        d.id < tt.stops@.len(),
        best.len() == tt.stops@.len(),
        capped_bounds(tt, origin, dep, best, d, k),
        forall|x: int|
            0 <= x < best.len() && best[x] != INFINITY ==> #[trigger] cexhausted(
                tt,
                best,
                d,
                x,
                best[x],
                tt.routes@.len() as int,
            ),
    ensures
        capped_bounds(tt, origin, dep, best, d, m),
    decreases m,
{
    if m > k {
        lemma_cbounds_all(tt, origin, dep, best, d, k, (m - 1) as nat);
        let none = Seq::<RaptorStopID>::empty();
        assert(csettled(tt, best, best, none, d));
        assert(cmarked_exhausted(tt, best, best, none, best, d, tt.routes@.len() as int));
        lemma_round_cbounds(tt, origin, dep, best, best, none, best, d, (m - 1) as nat);
    } else {
        assert forall|legs: Seq<Leg>, p: RaptorStopID, a: Seconds|
            #[trigger] feasible_journey(tt, origin, dep, legs, p, a) && all_rides(legs) && legs.len() <= m && a
                < INFINITY implies best[p.id as int] <= a || best[d.id as int] <= a by {}
    }
}



/// Lower times keep the marked stops exhausted.
proof fn lemma_cmarked_lower(
    tt: &RaptorTimetable,
    best0: Seq<Seconds>,
    prev: Seq<Seconds>,
    marked: Seq<RaptorStopID>,
    a: Seq<Seconds>,
    b: Seq<Seconds>,
    d: RaptorStopID,
    upto: int,
)
    requires
        tt.wf(),
        d.id < tt.stops@.len(),
        a.len() == tt.stops@.len(),
        b.len() == a.len(),
        forall|y: int| 0 <= y < b.len() ==> #[trigger] b[y] <= a[y],
        cmarked_exhausted(tt, best0, prev, marked, a, d, upto),
    ensures
        cmarked_exhausted(tt, best0, prev, marked, b, d, upto),
{
    assert forall|x: int|
        0 <= x < best0.len() && best0[x] != INFINITY && prev[x] == best0[x] && marked.contains(
            RaptorStopID { id: x as usize },
        ) implies #[trigger] cexhausted(tt, b, d, x, best0[x], upto) by {
        lemma_cexhausted_lower(tt, a, b, d, x, best0[x], upto);
    }
}

/// After a round, every reached stop is exhausted from its time, or improved in the round
/// and marked; with nothing marked, every reached stop is exhausted.
proof fn lemma_next_settled(
    tt: &RaptorTimetable,
    best0: Seq<Seconds>,
    prev: Seq<Seconds>,
    marked0: Seq<RaptorStopID>,
    best1: Seq<Seconds>,
    marked1: Seq<RaptorStopID>,
    d: RaptorStopID,
)
    requires
        tt.wf(),
        d.id < tt.stops@.len(),
        best0.len() == tt.stops@.len(),
        best1.len() == tt.stops@.len(),
        prev.len() == tt.stops@.len(),
        csettled(tt, best0, prev, marked0, d),
        cmarked_exhausted(tt, best0, prev, marked0, best1, d, tt.routes@.len() as int),
        forall|y: int| 0 <= y < best1.len() ==> #[trigger] best1[y] <= best0[y],
        forall|y: int|
            0 <= y < best1.len() && #[trigger] best1[y] < best0[y] ==> marked1.contains(RaptorStopID { id: y as usize }),
    ensures
        csettled(tt, best1, best1, marked1, d),
        marked1.len() == 0 ==> forall|x: int|
            0 <= x < best1.len() && best1[x] != INFINITY ==> #[trigger] cexhausted(
                tt,
                best1,
                d,
                x,
                best1[x],
                tt.routes@.len() as int,
            ),
{
    let nr = tt.routes@.len() as int;
    assert forall|x: int|
        #![trigger best1[x]]
        0 <= x < best1.len() && best1[x] != INFINITY implies (cexhausted(tt, best1, d, x, best1[x], nr) || (best1[x]
        == best1[x] && marked1.contains(RaptorStopID { id: x as usize }))) && (marked1.len() == 0 ==> cexhausted(
        tt,
        best1,
        d,
        x,
        best1[x],
        nr,
    )) by {
        if best1[x] < best0[x] {
            assert(marked1.contains(RaptorStopID { id: x as usize }));
        } else {
            assert(best1[x] == best0[x]);
            if cexhausted(tt, best0, d, x, best0[x], nr) {
                lemma_cexhausted_lower(tt, best0, best1, d, x, best0[x], nr);
            } else {
                assert(prev[x] == best0[x] && marked0.contains(RaptorStopID { id: x as usize }));
            }
        }
    }
}



/// `bd` is no later than any journey that rides once from the origin and then walks to
/// the destination.
pub open spec fn ride_walk_below(
    tt: &RaptorTimetable,
    origin: RaptorStopID,
    dep: Seconds,
    d: RaptorStopID,
    bd: Seconds,
) -> bool {
    forall|legs: Seq<Leg>, a: Seconds|
        #[trigger] feasible_journey(tt, origin, dep, legs, d, a) && legs.len() == 2 && legs[0].trip_id is Some
            && legs[1].trip_id is None && a < INFINITY ==> bd <= a
}

/// After the first round's walks, a ride from the origin followed by a walk to the
/// destination is bounded there: the ride's stop was reached by the round and marked,
/// and its walks were offered from the time it was reached.
proof fn lemma_ride_walk_found(
    tt: &RaptorTimetable,
    origin: RaptorStopID,
    dep: Seconds,
    d: RaptorStopID,
    b0: Seq<Seconds>,
    bs: Seq<Seconds>,
    b1: Seq<Seconds>,
    ms: Seq<RaptorStopID>,
    cs: Seq<Seconds>,
)
    requires
        tt.wf(),
        origin.id < tt.stops@.len(),
        d.id < tt.stops@.len(),
        b0.len() == tt.stops@.len(),
        bs.len() == tt.stops@.len(),
        b1.len() == tt.stops@.len(),
        tt.transfers@[origin.id as int]@.len() == 0,
        forall|x: int| 0 <= x < b0.len() && x != origin.id ==> #[trigger] b0[x] == INFINITY,
        capped_bounds(tt, origin, dep, bs, d, 1),
        forall|y: int| 0 <= y < bs.len() && #[trigger] bs[y] < b0[y] ==> ms.contains(RaptorStopID { id: y as usize }),
        forall|y: int| 0 <= y < bs.len() ==> #[trigger] bs[y] <= b0[y],
        forall|y: int| 0 <= y < b1.len() ==> #[trigger] b1[y] <= bs[y],
        cs == bs,
        forall|j: int, k: int|
            0 <= j < ms.len() && 0 <= k < tt.transfers@[ms[j].id as int]@.len() ==> #[trigger] walk_offered(
                tt,
                b1,
                d,
                ms[j].id as int,
                k,
                cs[ms[j].id as int] as int,
            ),
    ensures
        ride_walk_below(tt, origin, dep, d, b1[d.id as int]),
{
    assert forall|legs: Seq<Leg>, a: Seconds|
        #[trigger] feasible_journey(tt, origin, dep, legs, d, a) && legs.len() == 2 && legs[0].trip_id is Some
            && legs[1].trip_id is None && a < INFINITY implies b1[d.id as int] <= a by {
        let pa = lemma_journey_prefix(tt, origin, dep, legs, d, a);
        let pre = legs.drop_last();
        let last = legs.last();
        assert(legs[1] == last);
        assert(pre[0] == legs[0]);
        assert(all_rides(pre));
        let x = last.origin_stop.id as int;
        lemma_journey_ends_at_stop(tt, origin, dep, pre, last.origin_stop, pa);
        assert(leg_in_timetable(tt, last));
        let k = choose|k: int|
            0 <= k < tt.transfers@[x]@.len() && (#[trigger] tt.transfers@[x]@[k]).to_stop == last.destination_stop
                && last.leg_end_time == last.leg_start_time + tt.transfers@[x]@[k].walk_time;
        assert(bs[x] <= pa || bs[d.id as int] <= pa);
        if bs[d.id as int] <= pa {
            assert(b1[d.id as int] <= bs[d.id as int]);
        } else if bs[x] < b0[x] {
            assert(ms.contains(RaptorStopID { id: x as usize }));
            let j = choose|j: int| 0 <= j < ms.len() && ms[j] == RaptorStopID { id: x as usize };
            assert(walk_offered(tt, b1, d, ms[j].id as int, k, cs[ms[j].id as int] as int));
            assert(tt.transfers@[x]@[k].to_stop == d);
        } else {
            assert(x == origin.id);
        }
    }
}



/// A lower time keeps the bound.
proof fn lemma_ride_walk_lower(
    tt: &RaptorTimetable,
    origin: RaptorStopID,
    dep: Seconds,
    d: RaptorStopID,
    hi: Seconds,
    lo: Seconds,
)
    requires
        ride_walk_below(tt, origin, dep, d, hi),
        lo <= hi,
    ensures
        ride_walk_below(tt, origin, dep, d, lo),
{
}



/// Plain round-based search that also reconstructs the journey it finds.
#[derive(Debug, Clone)]
pub struct SimpleRaptor {
    pub timetable: RaptorTimetable,
}

impl SimpleRaptor {
    pub fn new(timetable: RaptorTimetable) -> (res: Self)
        ensures
            res.timetable == timetable,
    {
        Self { timetable }
    }

    /// Follows parent legs back from the destination, starting in the round whose leg
    /// reaches it earliest (the first such round on ties), for at most `max_transfers`
    /// legs or until the origin or a missing leg is met.
    fn reconstruct(
        &self,
        state: &RaptorState,
        origin: RaptorStopID,
        destination: RaptorStopID,
        depart_time: Seconds,
        max_transfers: usize,
    ) -> (res: Result<Journey, RaptorError>)
        requires
            state.shaped(self.timetable.stops@.len(), (max_transfers + 1) as nat),
            destination.id < self.timetable.stops@.len(),
            origin != destination,
            max_transfers < usize::MAX,
            parents_ok(&self.timetable, state.parent_leg@, self.timetable.stops@.len(), depart_time),
            parents_timed(state.parent_leg@, self.timetable.stops@.len(), depart_time),
        ensures
            match res {
                Err(e) => {
                    &&& e == RaptorError::DestinationUnreachable {
                        origin,
                        destination,
                        departure_time: depart_time,
                    }
                    &&& forall|r: int|
                        1 <= r <= max_transfers ==> (#[trigger] state.parent_leg@[r]@[destination.id as int]) is None
                },
                Ok(j) => {
                    &&& j.origin == origin
                    &&& j.destination == destination
                    &&& j.departure_time == depart_time
                    &&& exists|b: int|
                        1 <= b <= max_transfers && (#[trigger] state.parent_leg@[b]@[destination.id as int]) == Some(
                            j.legs@.last(),
                        )
                    &&& forall|r: int|
                        1 <= r <= max_transfers && (#[trigger] state.parent_leg@[r]@[destination.id as int]) is Some
                            ==> j.legs@.last().leg_end_time <= state.parent_leg@[r]@[destination.id as int]->0.leg_end_time
                    &&& 1 <= j.legs@.len() <= max_transfers
                    &&& j.legs@.last().destination_stop == destination
                    &&& chained(j.legs@)
                    &&& forall|i: int| 0 <= i < j.legs@.len() ==> leg_offered(&self.timetable, #[trigger] j.legs@[i])
                    &&& forall|i: int| 0 <= i < j.legs@.len() ==> (#[trigger] j.legs@[i]).leg_end_time >= depart_time
                    &&& forall|i: int| 0 <= i < j.legs@.len() ==> (#[trigger] j.legs@[i]).leg_start_time >= depart_time
                    &&& forall|i: int|
                        0 <= i < j.legs@.len() - 1 ==> (#[trigger] j.legs@[i]).leg_end_time <= j.legs@[i + 1].leg_start_time
                },
            },
    {
        let ghost n = self.timetable.stops@.len();
        let ghost parent = state.parent_leg@;
        let mut best: Option<(usize, Seconds)> = None;
        let mut round: usize = 1;
        while round <= max_transfers
            invariant
                1 <= round <= max_transfers + 1,
                max_transfers < usize::MAX,
                state.shaped(n, (max_transfers + 1) as nat),
                destination.id < n,
                parent == state.parent_leg@,
                match best {
                    None => forall|r: int|
                        1 <= r < round ==> (#[trigger] parent[r]@[destination.id as int]) is None,
                    Some((b, a)) => {
                        &&& 1 <= b < round
                        &&& parent[b as int]@[destination.id as int] matches Some(l) && l.leg_end_time == a
                        &&& forall|r: int|
                            1 <= r < round && (#[trigger] parent[r]@[destination.id as int]) is Some
                                ==> a <= parent[r]@[destination.id as int]->0.leg_end_time
                    },
                },
            decreases max_transfers + 1 - round,
        {
            if let Some(leg) = state.parent_leg[round][destination.id] {
                match best {
                    Some((_, arrival)) if arrival <= leg.leg_end_time => {},
                    _ => {
                        best = Some((round, leg.leg_end_time));
                    },
                }
            }
            round = round + 1;
        }
        let best_round = match best {
            Some((b, _)) => b,
            None => {
                return Err(
                    RaptorError::DestinationUnreachable {
                        origin,
                        destination,
                        departure_time: depart_time,
                    },
                );
            },
        };
        let mut legs: Vec<Leg> = Vec::new();
        let mut round = best_round;
        let mut current_stop = destination;
        let mut step: usize = 0;
        let ghost mut lr: int = best_round as int;
        while step < max_transfers
            invariant
                state.shaped(n, (max_transfers + 1) as nat),
                parent == state.parent_leg@,
                parents_ok(&self.timetable, parent, n, depart_time),
                round <= max_transfers,
                current_stop.id < n,
                step <= max_transfers,
                legs@.len() == step,
                step == 0 ==> current_stop == destination && round == best_round,
                step > 0 ==> legs@[0] == parent[best_round as int]@[destination.id as int]->0,
                step > 0 ==> legs@.last().origin_stop == current_stop,
                forall|i: int|
                    1 <= i < legs@.len() ==> (#[trigger] legs@[i]).destination_stop
                        == legs@[i - 1].origin_stop,
                forall|i: int| 0 <= i < legs@.len() ==> leg_offered(&self.timetable, #[trigger] legs@[i]),
                forall|i: int| 0 <= i < legs@.len() ==> (#[trigger] legs@[i]).leg_end_time >= depart_time,
                legs@.len() == 0 || legs@[0].destination_stop == destination,
                origin != destination,
                1 <= best_round <= max_transfers,
                parent[best_round as int]@[destination.id as int] is Some,
                parents_timed(parent, n, depart_time),
                step > 0 ==> 0 <= lr < parent.len() && parent[lr]@[legs@.last().destination_stop.id as int] == Some(
                    legs@.last(),
                ) && legs@.last().destination_stop.id < n && round == (if legs@.last().trip_id is Some {
                    lr - 1
                } else {
                    lr
                }),
                forall|i: int| 0 <= i < legs@.len() ==> (#[trigger] legs@[i]).leg_start_time >= depart_time,
                forall|i: int|
                    1 <= i < legs@.len() ==> (#[trigger] legs@[i]).leg_end_time <= legs@[i - 1].leg_start_time,
            ensures
                legs@.len() >= 1,
            decreases max_transfers - step,
        {
            if current_stop == origin {
                break;
            }
            match state.parent_leg[round][current_stop.id] {
                Some(leg) => {
                    proof {
                        assert(parent[round as int]@[current_stop.id as int] is Some);
                        assert(leg_timed(parent, round as int, current_stop.id as int, depart_time));
                        if step > 0 {
                            let last = legs@.last();
                            assert(leg_timed(parent, lr, last.destination_stop.id as int, depart_time));
                        }
                    }
                    let ghost before = legs@;
                    let ghost found_in = round as int;
                    current_stop = leg.origin_stop;
                    let is_transit = leg.trip_id.is_some();
                    legs.push(leg);
                    if is_transit {
                        round = round.saturating_sub(1);
                    }
                    proof {
                        lr = found_in;
                        assert(legs@.last() == leg);
                        assert forall|i: int| 1 <= i < legs@.len() implies (#[trigger] legs@[i]).leg_end_time
                            <= legs@[i - 1].leg_start_time by {
                            if i < before.len() {
                                assert(legs@[i] == before[i]);
                                assert(legs@[i - 1] == before[i - 1]);
                            } else {
                                assert(legs@[i - 1] == before.last());
                            }
                        }
                        if is_transit {
                            assert(found_in >= 1);
                        }
                    }
                },
                None => {
                    break;
                },
            }
            step = step + 1;
        }
        proof {
            assert(best_round >= 1);
            assert(parent[best_round as int]@[destination.id as int] is Some);
        }
        let ghost traced = legs@;
        let legs = reversed_legs(&legs);
        proof {
            assert(legs@.last() == traced[0]);
            assert forall|i: int| 0 <= i < legs@.len() - 1 implies (#[trigger] legs@[i]).destination_stop
                == legs@[i + 1].origin_stop by {
                let t = traced.len() - 1 - i;
                assert(legs@[i] == traced[t]);
                assert(legs@[i + 1] == traced[t - 1]);
                assert(traced[t].destination_stop == traced[t - 1].origin_stop);
            }
            assert forall|i: int| 0 <= i < legs@.len() implies leg_offered(&self.timetable, #[trigger] legs@[i]) by {
                assert(legs@[i] == traced[traced.len() - 1 - i]);
            }
            assert forall|i: int| 0 <= i < legs@.len() implies (#[trigger] legs@[i]).leg_end_time >= depart_time by {
                assert(legs@[i] == traced[traced.len() - 1 - i]);
            }
            assert forall|i: int| 0 <= i < legs@.len() implies (#[trigger] legs@[i]).leg_start_time >= depart_time by {
                assert(legs@[i] == traced[traced.len() - 1 - i]);
            }
            assert forall|i: int| 0 <= i < legs@.len() - 1 implies (#[trigger] legs@[i]).leg_end_time
                <= legs@[i + 1].leg_start_time by {
                let t = traced.len() - 1 - i;
                assert(legs@[i] == traced[t]);
                assert(legs@[i + 1] == traced[t - 1]);
            }
        }
        Ok(Journey::new(origin, destination, depart_time, legs))
    }

    /// What every step of a query keeps of its state.
    pub open spec fn state_ok(
        &self,
        state: &RaptorState,
        destination: RaptorStopID,
        dep: Seconds,
        max_transfers: usize,
    ) -> bool {
        let n = self.timetable.stops@.len();
        &&& state.shaped(n, (max_transfers + 1) as nat)
        &&& state.departure_time == dep
        &&& state.destination_stop == destination
        &&& parents_ok(&self.timetable, state.parent_leg@, n, dep)
        &&& forall|x: int|
            0 <= x < n ==> #[trigger] state.tau_best@[x] <= state.tau_current@[x]
                && state.tau_best@[x] <= state.tau_prev@[x]
        &&& state.tau_best@[destination.id as int] != INFINITY ==> exists|r: int|
            1 <= r <= max_transfers && (#[trigger] state.parent_leg@[r]@[destination.id as int]) is Some
                && state.parent_leg@[r]@[destination.id as int]->0.leg_end_time == state.tau_best@[destination.id as int]
    }

    /// `update` keeps `state_ok` when the leg it is given is offered, ends at `stop`
    /// at `arrival_time`, and starts at a known stop.
    proof fn lemma_update_keeps_state(
        &self,
        old_state: &RaptorState,
        new_state: &RaptorState,
        round: usize,
        stop: RaptorStopID,
        arrival_time: Seconds,
        leg: Leg,
        destination: RaptorStopID,
        dep: Seconds,
        max_transfers: usize,
    )
        requires
            self.state_ok(old_state, destination, dep, max_transfers),
            1 <= round <= max_transfers,
            stop.id < self.timetable.stops@.len(),
            leg.destination_stop == stop,
            leg.origin_stop.id < self.timetable.stops@.len(),
            leg.leg_end_time == arrival_time,
            leg_offered(&self.timetable, leg),
            improves(old_state, stop, arrival_time) ==> {
                &&& new_state.tau_current@ == old_state.tau_current@.update(
                    stop.id as int,
                    arrival_time,
                )
                &&& new_state.tau_best@ == old_state.tau_best@.update(stop.id as int, arrival_time)
                &&& new_state.parent_leg@.len() == old_state.parent_leg@.len()
                &&& forall|k: int|
                    0 <= k < old_state.parent_leg@.len() && k != round ==> #[trigger] new_state.parent_leg@[k]
                        == old_state.parent_leg@[k]
                &&& new_state.parent_leg@[round as int]@ == old_state.parent_leg@[round as int]@.update(stop.id as int, Some(leg))
                &&& new_state.marked@ == old_state.marked@.update(stop.id as int, true)
                &&& new_state.marked_stops@ == if old_state.marked@[stop.id as int] {
                    old_state.marked_stops@
                } else {
                    old_state.marked_stops@.push(stop)
                }
                &&& new_state.tau_prev == old_state.tau_prev
                &&& new_state.destination_stop == old_state.destination_stop
                &&& new_state.departure_time == old_state.departure_time
            },
            !improves(old_state, stop, arrival_time) ==> *new_state == *old_state,
        ensures
            self.state_ok(new_state, destination, dep, max_transfers),
            forall|x: int|
                0 <= x < self.timetable.stops@.len() ==> #[trigger] new_state.tau_current@[x]
                    <= old_state.tau_current@[x] && new_state.tau_best@[x] <= old_state.tau_best@[x],
    {
        let n = self.timetable.stops@.len();
        if improves(old_state, stop, arrival_time) {
            assert forall|k: int, x: int|
                0 <= k < new_state.parent_leg@.len() && 0 <= x < n && (#[trigger] new_state.parent_leg@[k]@[x]) is Some implies {
                let l = new_state.parent_leg@[k]@[x]->0;
                &&& l.destination_stop.id == x
                &&& l.origin_stop.id < n
                &&& leg_offered(&self.timetable, l)
                &&& l.leg_end_time >= dep
            } by {
                if k != round {
                    assert(new_state.parent_leg@[k] == old_state.parent_leg@[k]);
                    assert(old_state.parent_leg@[k]@[x] is Some);
                } else if x != stop.id {
                    assert(new_state.parent_leg@[k]@[x] == old_state.parent_leg@[k]@[x]);
                    assert(old_state.parent_leg@[k]@[x] is Some);
                }
            }
            assert(new_state.shaped(n, (max_transfers + 1) as nat)) by {
                assert forall|k: int| 0 <= k < max_transfers + 1 implies (#[trigger] new_state.parent_leg@[k])@.len() == n by {
                    if k != round {
                        assert(new_state.parent_leg@[k] == old_state.parent_leg@[k]);
                    }
                }
            }
            let d = destination.id as int;
            if new_state.tau_best@[d] != INFINITY {
                if d == stop.id {
                    assert(new_state.parent_leg@[round as int]@[d] == Some(leg));
                } else {
                    let r = choose|r: int|
                        1 <= r <= max_transfers && (#[trigger] old_state.parent_leg@[r]@[d]) is Some
                            && old_state.parent_leg@[r]@[d]->0.leg_end_time == old_state.tau_best@[d];
                    if r == round {
                        assert(new_state.parent_leg@[r]@[d] == old_state.parent_leg@[r]@[d]);
                    } else {
                        assert(new_state.parent_leg@[r] == old_state.parent_leg@[r]);
                    }
                }
            }
        }
    }

    /// Scans one route from `boarding_idx`, boarding the earliest trip reachable from
    /// the previous round and offering each later stop its arrival.
    fn scan_route(
        &self,
        state: &mut RaptorState,
        route_idx: usize,
        boarding_idx: usize,
        round: usize,
        Ghost(destination): Ghost<RaptorStopID>,
        Ghost(dep): Ghost<Seconds>,
        Ghost(max_transfers): Ghost<usize>,
        Ghost(origin): Ghost<RaptorStopID>,
    )
        requires
            self.timetable.wf(),
            self.state_ok(old(state), destination, dep, max_transfers),
            parents_timed(old(state).parent_leg@, self.timetable.stops@.len(), dep),
            round_timed(old(state), origin, round as int, self.timetable.stops@.len()),
            1 <= round <= max_transfers,
            route_idx < self.timetable.routes@.len(),
            forall|i: int|
                0 <= i < old(state).marked_stops@.len() ==> below_some_arrival(
                    &self.timetable,
                    old(state).tau_current@[(#[trigger] old(state).marked_stops@[i]).id as int],
                ),
        ensures
            self.state_ok(final(state), destination, dep, max_transfers),
            parents_timed(final(state).parent_leg@, self.timetable.stops@.len(), dep),
            round_timed(final(state), origin, round as int, self.timetable.stops@.len()),
            final(state).tau_prev == old(state).tau_prev,
            forall|x: int|
                0 <= x < self.timetable.stops@.len() ==> #[trigger] final(state).tau_best@[x]
                    <= old(state).tau_best@[x],
            forall|i: int|
                0 <= i < final(state).marked_stops@.len() ==> below_some_arrival(
                    &self.timetable,
                    final(state).tau_current@[(#[trigger] final(state).marked_stops@[i]).id as int],
                ),
            forall|j: int|
                boarding_idx <= j < self.timetable.routes@[route_idx as int].stops@.len() ==> #[trigger] ride_offered(
                    &self.timetable,
                    final(state).tau_best@,
                    destination,
                    route_idx as int,
                    carried(&self.timetable, route_idx as int, old(state).tau_prev@, boarding_idx as int, j),
                    j,
                    dep,
                ),
            marks_listed(old(state)) ==> marks_listed(final(state)) && tracks_marks(*old(state), *final(state)),
    {
        proof {
            lemma_tracks_refl(*state);
        }
        let ghost tt = self.timetable;
        let ghost n = tt.stops@.len();
        let ghost r = route_idx as int;
        let ghost prev = old(state).tau_prev@;
        let route_id = TimetableRouteID::new(route_idx);
        let route = &self.timetable.routes[route_idx];
        let mut current_trip: Option<usize> = None;
        let mut boarded_at: Option<(RaptorStopID, usize)> = None;
        let mut stop_idx = boarding_idx;
        while stop_idx < route.stops.len()
            invariant
                tt == self.timetable,
                tt.wf(),
                route == &tt.routes@[route_idx as int],
                route_idx < tt.routes@.len(),
                route_id.id == route_idx,
                n == tt.stops@.len(),
                1 <= round <= max_transfers,
                self.state_ok(state, destination, dep, max_transfers),
                state.tau_prev == old(state).tau_prev,
                forall|x: int| 0 <= x < n ==> #[trigger] state.tau_best@[x] <= old(state).tau_best@[x],
                forall|i: int|
                    0 <= i < state.marked_stops@.len() ==> below_some_arrival(
                        &tt,
                        state.tau_current@[(#[trigger] state.marked_stops@[i]).id as int],
                    ),
                current_trip is Some <==> boarded_at is Some,
                current_trip matches Some(t) ==> t < route.trips@.len(),
                boarded_at matches Some(b) ==> b.1 < stop_idx && b.1 < route.stops@.len() && b.0
                    == route.stops@[b.1 as int],
                parents_timed(state.parent_leg@, n, dep),
                round_timed(state, origin, round as int, n),
                boarded_at matches Some(b) ==> (current_trip matches Some(t) && tt.departure_at(
                    route_idx as int,
                    t as int,
                    b.1 as int,
                ) >= state.tau_prev@[b.0.id as int]),
                r == route_idx as int,
                prev == old(state).tau_prev@,
                boarding_idx <= stop_idx,
                held_trip(current_trip, boarded_at) == if stop_idx == boarding_idx {
                    None
                } else {
                    carried(&tt, r, prev, boarding_idx as int, stop_idx - 1)
                },
                forall|j: int|
                    boarding_idx <= j < stop_idx ==> #[trigger] ride_offered(
                        &tt,
                        state.tau_best@,
                        destination,
                        r,
                        carried(&tt, r, prev, boarding_idx as int, j),
                        j,
                        dep,
                    ),
                marks_listed(old(state)) ==> marks_listed(state) && tracks_marks(*old(state), *state),
                old(state).tau_best@.len() == n,
            decreases route.stops@.len() - stop_idx,
        {
            let stop = route.stops[stop_idx];
            proof {
                assert(stop == tt.routes@[route_idx as int].stops@[stop_idx as int]);
            }
            let prev_arr = state.tau_prev(&stop);
            let ghost held_before = held_trip(current_trip, boarded_at);
            let ghost best_before = state.tau_best@;
            if prev_arr < INFINITY {
                let found = self.timetable.earliest_trip(route_id, stop_idx, prev_arr);
                proof {
                    lemma_first_trip(&tt, r, stop_idx as int, prev_arr, found);
                }
                if let Some(trip_idx) = found {
                    let is_earlier = match current_trip {
                        None => true,
                        Some(current) => self.timetable.get_departure_time(route_id, trip_idx, stop_idx)
                            < self.timetable.get_departure_time(route_id, current, stop_idx),
                    };
                    if is_earlier {
                        current_trip = Some(trip_idx);
                        boarded_at = Some((stop, stop_idx));
                    }
                }
            }
            proof {
                assert(prev[tt.routes@[r].stops@[stop_idx as int].id as int] == prev_arr);
                assert(held_trip(current_trip, boarded_at) == carried(&tt, r, prev, boarding_idx as int, stop_idx as int));
            }
            if let Some(trip_idx) = current_trip {
                if let Some((board_stop, board_idx)) = boarded_at {
                    let arrival_time = self.timetable.get_arrival_time(route_id, trip_idx, stop_idx);
                    let leg = Leg {
                        origin_stop: board_stop,
                        destination_stop: stop,
                        leg_start_time: self.timetable.get_departure_time(route_id, trip_idx, board_idx),
                        leg_end_time: arrival_time,
                        trip_id: Some(route.trips[trip_idx].trip_id),
                    };
                    proof {
                        assert(leg_offered(&tt, leg)) by {
                            assert(tt.departure_at(route_idx as int, trip_idx as int, board_idx as int) == leg.leg_start_time);
                            assert(tt.arrival_at(route_idx as int, trip_idx as int, stop_idx as int) == leg.leg_end_time);
                        }
                    }
                    let ghost old_state = *state;
                    state.update(round, stop, arrival_time, leg);
                    proof {
                        self.lemma_update_keeps_state(&old_state, state, round, stop, arrival_time, leg, destination, dep, max_transfers);
                        assert(board_stop.id < n);
                        lemma_update_keeps_timed(&old_state, state, round, stop, arrival_time, leg, origin, n);
                        assert(tt.arrival_at(route_idx as int, trip_idx as int, stop_idx as int) >= arrival_time);
                        assert(below_some_arrival(&tt, arrival_time));
                        assert forall|i: int|
                            0 <= i < state.marked_stops@.len() implies below_some_arrival(
                            &tt,
                            state.tau_current@[(#[trigger] state.marked_stops@[i]).id as int],
                        ) by {
                            if improves(&old_state, stop, arrival_time) && state.marked_stops@[i] != stop {
                                if i < old_state.marked_stops@.len() {
                                    assert(state.marked_stops@[i] == old_state.marked_stops@[i]);
                                }
                            }
                        }
                        assert(old_state.tau_best@[stop.id as int] <= old_state.tau_current@[stop.id as int]);
                        if marks_listed(old(state)) {
                            assert(old_state.tau_best@.len() == n && old(state).tau_best@.len() == n);
                            lemma_step_tracks(*old(state), old_state, stop, stop, arrival_time, *state);
                        }
                    }
                }
            }
            proof {
                let c = carried(&tt, r, prev, boarding_idx as int, stop_idx as int);
                assert(ride_offered(&tt, state.tau_best@, destination, r, c, stop_idx as int, dep));
                assert forall|j: int|
                    boarding_idx <= j < stop_idx + 1 implies #[trigger] ride_offered(
                    &tt,
                    state.tau_best@,
                    destination,
                    r,
                    carried(&tt, r, prev, boarding_idx as int, j),
                    j,
                    dep,
                ) by {
                    if j < stop_idx {
                        assert(ride_offered(&tt, best_before, destination, r, carried(&tt, r, prev, boarding_idx as int, j), j, dep));
                        assert(tt.routes@[r].stops@[j].id < n);
                    }
                }
            }
            stop_idx = stop_idx + 1;
        }
    }

    /// Walks from every stop a ride improved this round, from its arrival there.
    fn relax_transfers(
        &self,
        state: &mut RaptorState,
        round: usize,
        Ghost(destination): Ghost<RaptorStopID>,
        Ghost(dep): Ghost<Seconds>,
        Ghost(max_transfers): Ghost<usize>,
        Ghost(origin): Ghost<RaptorStopID>,
    )
        requires
            self.timetable.wf(),
            self.timetable.times_fit(dep),
            self.state_ok(old(state), destination, dep, max_transfers),
            parents_timed(old(state).parent_leg@, self.timetable.stops@.len(), dep),
            round_timed(old(state), origin, round as int, self.timetable.stops@.len()),
            1 <= round <= max_transfers,
            forall|i: int|
                0 <= i < old(state).marked_stops@.len() ==> below_some_arrival(
                    &self.timetable,
                    old(state).tau_current@[(#[trigger] old(state).marked_stops@[i]).id as int],
                ),
        ensures
            self.state_ok(final(state), destination, dep, max_transfers),
            parents_timed(final(state).parent_leg@, self.timetable.stops@.len(), dep),
            round_timed(final(state), origin, round as int, self.timetable.stops@.len()),
            final(state).tau_prev == old(state).tau_prev,
            final(state).marked_stops@.len() >= old(state).marked_stops@.len(),
            forall|j: int, k: int|
                0 <= j < old(state).marked_stops@.len() && 0 <= k < self.timetable.transfers@[old(
                    state,
                ).marked_stops@[j].id as int]@.len() ==> #[trigger] walk_offered(
                    &self.timetable,
                    final(state).tau_best@,
                    destination,
                    old(state).marked_stops@[j].id as int,
                    k,
                    old(state).tau_current@[old(state).marked_stops@[j].id as int] as int,
                ),
            forall|x: int|
                0 <= x < self.timetable.stops@.len() ==> #[trigger] final(state).tau_best@[x]
                    <= old(state).tau_best@[x],
            marks_listed(old(state)) ==> marks_listed(final(state)) && tracks_marks(*old(state), *final(state)),
    {
        proof {
            lemma_tracks_refl(*state);
        }
        let ghost tt = self.timetable;
        let ghost n = tt.stops@.len();
        let improved_stops = copy_stops(&state.marked_stops);
        let mut i: usize = 0;
        while i < improved_stops.len()
            invariant
                tt == self.timetable,
                tt.wf(),
                tt.times_fit(dep),
                n == tt.stops@.len(),
                1 <= round <= max_transfers,
                i <= improved_stops@.len(),
                improved_stops@ == old(state).marked_stops@,
                forall|j: int| 0 <= j < improved_stops@.len() ==> (#[trigger] improved_stops@[j]).id < n,
                self.state_ok(state, destination, dep, max_transfers),
                state.tau_prev == old(state).tau_prev,
                state.marked_stops@.len() >= old(state).marked_stops@.len(),
                forall|x: int| 0 <= x < n ==> #[trigger] state.tau_best@[x] <= old(state).tau_best@[x],
                forall|j: int|
                    0 <= j < improved_stops@.len() ==> below_some_arrival(
                        &tt,
                        state.tau_current@[(#[trigger] improved_stops@[j]).id as int],
                    ),
                parents_timed(state.parent_leg@, n, dep),
                round_timed(state, origin, round as int, n),
                forall|x: int| 0 <= x < n ==> #[trigger] state.tau_current@[x] <= old(state).tau_current@[x],
                forall|j: int, k: int|
                    0 <= j < i && 0 <= k < tt.transfers@[improved_stops@[j].id as int]@.len() ==> #[trigger] walk_offered(
                        &tt,
                        state.tau_best@,
                        destination,
                        improved_stops@[j].id as int,
                        k,
                        old(state).tau_current@[improved_stops@[j].id as int] as int,
                    ),
                marks_listed(old(state)) ==> marks_listed(state) && tracks_marks(*old(state), *state),
                old(state).tau_best@.len() == n,
            decreases improved_stops@.len() - i,
        {
            let stop = improved_stops[i];
            proof {
                assert(stop == old(state).marked_stops@[i as int]);
            }
            let transfers = &self.timetable.transfers[stop.id];
            if transfers.len() == 0 {
                proof {
                    assert forall|j: int, k: int|
                        0 <= j < i + 1 && 0 <= k < tt.transfers@[improved_stops@[j].id as int]@.len() implies #[trigger] walk_offered(
                        &tt,
                        state.tau_best@,
                        destination,
                        improved_stops@[j].id as int,
                        k,
                        old(state).tau_current@[improved_stops@[j].id as int] as int,
                    ) by {
                        if j == i {
                            assert(tt.transfers@[stop.id as int]@.len() == 0);
                        }
                    }
                }
                i = i + 1;
                continue;
            }
            let current_arrival = state.tau_current(&stop);
            let mut k: usize = 0;
            while k < transfers.len()
                invariant
                    tt == self.timetable,
                    tt.wf(),
                    tt.times_fit(dep),
                    n == tt.stops@.len(),
                    stop.id < n,
                    transfers == &tt.transfers@[stop.id as int],
                    1 <= round <= max_transfers,
                    i < improved_stops@.len(),
                    improved_stops@ == old(state).marked_stops@,
                    forall|j: int| 0 <= j < improved_stops@.len() ==> (#[trigger] improved_stops@[j]).id < n,
                    self.state_ok(state, destination, dep, max_transfers),
                    state.tau_prev == old(state).tau_prev,
                    state.marked_stops@.len() >= old(state).marked_stops@.len(),
                    forall|x: int| 0 <= x < n ==> #[trigger] state.tau_best@[x] <= old(state).tau_best@[x],
                    forall|j: int|
                        0 <= j < improved_stops@.len() ==> below_some_arrival(
                            &tt,
                            state.tau_current@[(#[trigger] improved_stops@[j]).id as int],
                        ),
                    below_some_arrival(&tt, current_arrival),
                    parents_timed(state.parent_leg@, n, dep),
                    round_timed(state, origin, round as int, n),
                    current_arrival == state.tau_current@[stop.id as int],
                    forall|x: int| 0 <= x < n ==> #[trigger] state.tau_current@[x] <= old(state).tau_current@[x],
                    stop == improved_stops@[i as int],
                    k <= transfers@.len(),
                    forall|j: int, kk: int|
                        0 <= j < i && 0 <= kk < tt.transfers@[improved_stops@[j].id as int]@.len() ==> #[trigger] walk_offered(
                            &tt,
                            state.tau_best@,
                            destination,
                            improved_stops@[j].id as int,
                            kk,
                            old(state).tau_current@[improved_stops@[j].id as int] as int,
                        ),
                    forall|kk: int|
                        0 <= kk < k ==> #[trigger] walk_offered(
                            &tt,
                            state.tau_best@,
                            destination,
                            stop.id as int,
                            kk,
                            old(state).tau_current@[stop.id as int] as int,
                        ),
                    marks_listed(old(state)) ==> marks_listed(state) && tracks_marks(*old(state), *state),
                old(state).tau_best@.len() == n,
                decreases transfers@.len() - k,
            {
                let transfer = transfers[k];
                proof {
                    assert(transfer == tt.transfers@[stop.id as int]@[k as int]);
                    let (r, t, j) = choose|r: int, t: int, j: int|
                        0 <= r < tt.routes@.len() && 0 <= t < tt.routes@[r].trips@.len() && 0 <= j
                            < tt.routes@[r].trips@[t].stop_times@.len() && current_arrival
                            <= #[trigger] tt.arrival_at(r, t, j);
                    assert(tt.arrival_at(r, t, j) + tt.transfers@[stop.id as int]@[k as int].walk_time
                        <= usize::MAX);
                }
                let final_arrival = current_arrival + transfer.walk_time;
                let leg = Leg {
                    origin_stop: stop,
                    destination_stop: transfer.to_stop,
                    leg_start_time: current_arrival,
                    leg_end_time: final_arrival,
                    trip_id: None,
                };
                proof {
                    assert(leg_offered(&tt, leg)) by {
                        let w = tt.transfers@[stop.id as int]@[k as int];
                        assert(w == transfer);
                        assert(w.to_stop == leg.destination_stop);
                        assert(leg.leg_end_time == leg.leg_start_time + w.walk_time);
                        assert(0 <= leg.origin_stop.id < tt.transfers@.len());
                    }
                }
                let ghost old_state = *state;
                state.update(round, transfer.to_stop, final_arrival, leg);
                proof {
                    self.lemma_update_keeps_state(&old_state, state, round, transfer.to_stop, final_arrival, leg, destination, dep, max_transfers);
                    assert(transfer.to_stop.id < n);
                    lemma_update_keeps_timed(&old_state, state, round, transfer.to_stop, final_arrival, leg, origin, n);
                    if improves(&old_state, transfer.to_stop, final_arrival) {
                        assert(transfer.to_stop.id != stop.id);
                    }
                    if marks_listed(old(state)) {
                        assert(old_state.tau_best@.len() == n && old(state).tau_best@.len() == n);
                        lemma_step_tracks(*old(state), old_state, transfer.to_stop, transfer.to_stop, final_arrival, *state);
                    }
                    assert(old_state.tau_current@[stop.id as int] >= dep);
                    assert(old_state.tau_best@[transfer.to_stop.id as int] <= old_state.tau_current@[transfer.to_stop.id as int]);
                    assert(walk_offered(&tt, state.tau_best@, destination, stop.id as int, k as int, old(state).tau_current@[stop.id as int] as int));
                    assert forall|j: int, kk: int|
                        0 <= j < i && 0 <= kk < tt.transfers@[improved_stops@[j].id as int]@.len() implies #[trigger] walk_offered(
                        &tt,
                        state.tau_best@,
                        destination,
                        improved_stops@[j].id as int,
                        kk,
                        old(state).tau_current@[improved_stops@[j].id as int] as int,
                    ) by {
                        let x = improved_stops@[j].id as int;
                        assert(walk_offered(&tt, old_state.tau_best@, destination, x, kk, old(state).tau_current@[x] as int));
                        assert(tt.transfers@[x]@[kk].to_stop.id < n);
                    }
                    assert forall|kk: int| 0 <= kk < k + 1 implies #[trigger] walk_offered(
                        &tt,
                        state.tau_best@,
                        destination,
                        stop.id as int,
                        kk,
                        old(state).tau_current@[stop.id as int] as int,
                    ) by {
                        if kk < k {
                            assert(walk_offered(&tt, old_state.tau_best@, destination, stop.id as int, kk, old(state).tau_current@[stop.id as int] as int));
                            assert(tt.transfers@[stop.id as int]@[kk].to_stop.id < n);
                        }
                    }
                    assert forall|j: int|
                        0 <= j < improved_stops@.len() implies below_some_arrival(
                        &tt,
                        state.tau_current@[(#[trigger] improved_stops@[j]).id as int],
                    ) by {
                        let x = improved_stops@[j].id as int;
                        assert(x < n);
                        assert(below_some_arrival(&tt, old_state.tau_current@[x]));
                        let (r, t, q) = choose|r: int, t: int, q: int|
                            0 <= r < tt.routes@.len() && 0 <= t < tt.routes@[r].trips@.len() && 0 <= q
                                < tt.routes@[r].trips@[t].stop_times@.len()
                                && old_state.tau_current@[x] <= #[trigger] tt.arrival_at(r, t, q);
                        assert(state.tau_current@[x] <= tt.arrival_at(r, t, q));
                    }
                }
                k = k + 1;
            }
            proof {
                assert forall|j: int, kk: int|
                    0 <= j < i + 1 && 0 <= kk < tt.transfers@[improved_stops@[j].id as int]@.len() implies #[trigger] walk_offered(
                    &tt,
                    state.tau_best@,
                    destination,
                    improved_stops@[j].id as int,
                    kk,
                    old(state).tau_current@[improved_stops@[j].id as int] as int,
                ) by {
                    if j == i {
                        assert(walk_offered(&tt, state.tau_best@, destination, stop.id as int, kk, old(state).tau_current@[stop.id as int] as int));
                    }
                }
            }
            i = i + 1;
        }
    }

    /// Every (route, stop, position) for the routes serving the stops marked last round.
    fn collect_route_entries(&self, state: &RaptorState) -> (res: Vec<(TimetableRouteID, RaptorStopID, usize)>)
        requires
            self.timetable.wf(),
            forall|i: int|
                0 <= i < state.marked_stops@.len() ==> (#[trigger] state.marked_stops@[i]).id
                    < self.timetable.stops@.len(),
        ensures
            forall|i: int| 0 <= i < res@.len() ==> (#[trigger] res@[i]).0.id < self.timetable.routes@.len(),
            res@ == route_entries(&self.timetable, state.marked_stops@),
    {
        let ghost tt = self.timetable;
        let mut entries: Vec<(TimetableRouteID, RaptorStopID, usize)> = Vec::new();
        proof {
            assert(state.marked_stops@.take(0) =~= Seq::<RaptorStopID>::empty());
        }
        let mut i: usize = 0;
        while i < state.marked_stops.len()
            invariant
                tt == self.timetable,
                tt.wf(),
                i <= state.marked_stops@.len(),
                forall|j: int|
                    0 <= j < state.marked_stops@.len() ==> (#[trigger] state.marked_stops@[j]).id
                        < tt.stops@.len(),
                forall|j: int| 0 <= j < entries@.len() ==> (#[trigger] entries@[j]).0.id < tt.routes@.len(),
                entries@ == route_entries(&tt, state.marked_stops@.take(i as int)),
            decreases state.marked_stops@.len() - i,
        {
            let stop = state.marked_stops[i];
            proof {
                assert(stop == state.marked_stops@[i as int]);
            }
            let serving = &self.timetable.routes_serving_stops[stop.id];
            let ghost before = entries@;
            let mut j: usize = 0;
            proof {
                assert(serving@.take(0) =~= Seq::<RaptorRouteServingStop>::empty());
                assert(before + stop_entries(serving@.take(0), stop) =~= before);
            }
            while j < serving.len()
                invariant
                    tt == self.timetable,
                    tt.wf(),
                    stop.id < tt.stops@.len(),
                    serving == &tt.routes_serving_stops@[stop.id as int],
                    forall|q: int| 0 <= q < entries@.len() ==> (#[trigger] entries@[q]).0.id < tt.routes@.len(),
                    j <= serving@.len(),
                    entries@ == before + stop_entries(serving@.take(j as int), stop),
                decreases serving@.len() - j,
            {
                let route = serving[j];
                proof {
                    assert(route == tt.routes_serving_stops@[stop.id as int]@[j as int]);
                }
                entries.push((route.route_id, stop, route.stop_sequence));
                proof {
                    assert(serving@.take(j + 1) =~= serving@.take(j as int).push(route));
                    assert(stop_entries(serving@.take(j + 1), stop) =~= stop_entries(serving@.take(j as int), stop).push(
                        (route.route_id, stop, route.stop_sequence),
                    ));
                    assert(entries@ =~= before + stop_entries(serving@.take(j + 1), stop));
                }
                j = j + 1;
            }
            proof {
                let m = state.marked_stops@;
                assert(serving@.take(j as int) =~= serving@);
                assert(m.take(i + 1).drop_last() =~= m.take(i as int));
                assert(m.take(i + 1).last() == stop);
                assert(entries@ == route_entries(&tt, m.take(i + 1)));
            }
            i = i + 1;
        }
        proof {
            assert(state.marked_stops@.take(i as int) =~= state.marked_stops@);
        }
        entries
    }

    /// For each route, the earliest position (and its stop) among the entries.
    fn build_route_queue(&self, route_entries: &Vec<(TimetableRouteID, RaptorStopID, usize)>) -> (res: Vec<
        Option<(RaptorStopID, usize)>,
    >)
        requires
            forall|i: int|
                0 <= i < route_entries@.len() ==> (#[trigger] route_entries@[i]).0.id
                    < self.timetable.routes@.len(),
        ensures
            res@.len() == self.timetable.routes@.len(),
            forall|q: int|
                0 <= q < route_entries@.len() ==> (res@[(#[trigger] route_entries@[q]).0.id as int] matches Some(p)
                    && p.1 <= route_entries@[q].2),
    {
        let mut route_queue: Vec<Option<(RaptorStopID, usize)>> = empty_slots(self.timetable.routes.len());
        let mut i: usize = 0;
        while i < route_entries.len()
            invariant
                i <= route_entries@.len(),
                route_queue@.len() == self.timetable.routes@.len(),
                forall|q: int|
                    0 <= q < route_entries@.len() ==> (#[trigger] route_entries@[q]).0.id
                        < self.timetable.routes@.len(),
                forall|q: int|
                    0 <= q < i ==> (route_queue@[(#[trigger] route_entries@[q]).0.id as int] matches Some(p)
                        && p.1 <= route_entries@[q].2),
            decreases route_entries@.len() - i,
        {
            let (route_id, stop, stop_idx) = route_entries[i];
            proof {
                assert(route_entries@[i as int].0 == route_id);
                assert(route_entries@[i as int].2 == stop_idx);
            }
            let ghost before = route_queue@;
            match route_queue[route_id.id] {
                Some((_, queued_idx)) if stop_idx >= queued_idx => {},
                _ => {
                    route_queue.set(route_id.id, Some((stop, stop_idx)));
                },
            }
            proof {
                assert forall|q: int| 0 <= q < i + 1 implies (route_queue@[(#[trigger] route_entries@[q]).0.id as int] matches Some(
                    p,
                ) && p.1 <= route_entries@[q].2) by {
                    if q < i && route_entries@[q].0.id != route_id.id {
                        assert(route_queue@[route_entries@[q].0.id as int] == before[route_entries@[q].0.id as int]);
                    }
                }
            }
            i = i + 1;
        }
        route_queue
    }

    /// Earliest-arrival search from `origin` at `depart_time` with up to `max_transfers`
    /// rounds, returning the journey reconstructed from the parent legs. The same stop
    /// as origin and destination gives the empty journey. The legs returned are offered
    /// by the timetable, follow one another from stop to stop and in time, and leave no
    /// earlier than `depart_time`; the tracing back stops at a stop with no leg recorded
    /// in the round it looks in, so the first leg need not start at the origin. The
    /// journey arrives no later than any single walk from the origin to the destination,
    /// and, when at least one round is allowed, than any ride to the destination boarded
    /// where a route whose trips keep their order first meets the origin.
    pub fn query(
        &self,
        origin: RaptorStopID,
        destination: RaptorStopID,
        depart_time: Seconds,
        max_transfers: usize,
    ) -> (res: Result<Journey, RaptorError>)
        requires
            origin != destination ==> {
                &&& self.timetable.wf()
                &&& self.timetable.times_fit(depart_time)
                &&& origin.id < self.timetable.stops@.len()
                &&& destination.id < self.timetable.stops@.len()
                &&& max_transfers < usize::MAX
                &&& max_transfers >= 1 || self.timetable.transfers@[origin.id as int]@.len() == 0
            },
        ensures
            origin == destination ==> (res matches Ok(j) && j.legs@.len() == 0),
            res matches Ok(j) ==> j.origin == origin && j.destination == destination
                && j.departure_time == depart_time,
            origin != destination ==> (res matches Ok(j) ==> {
                &&& 1 <= j.legs@.len() <= max_transfers
                &&& j.legs@.last().destination_stop == destination
                &&& chained(j.legs@)
                &&& forall|i: int| 0 <= i < j.legs@.len() ==> leg_offered(&self.timetable, #[trigger] j.legs@[i])
                &&& forall|i: int| 0 <= i < j.legs@.len() ==> (#[trigger] j.legs@[i]).leg_end_time >= depart_time
                &&& forall|i: int| 0 <= i < j.legs@.len() ==> (#[trigger] j.legs@[i]).leg_start_time >= depart_time
                &&& forall|i: int|
                    0 <= i < j.legs@.len() - 1 ==> (#[trigger] j.legs@[i]).leg_end_time <= j.legs@[i + 1].leg_start_time
            }),
            res matches Err(e) ==> e == (RaptorError::DestinationUnreachable {
                origin,
                destination,
                departure_time: depart_time,
            }),
            forall|k: int|
                0 <= k < self.timetable.transfers@[origin.id as int]@.len() && (#[trigger] self.timetable.transfers@[origin.id as int]@[k]).to_stop
                    == destination && origin != destination && depart_time
                    + self.timetable.transfers@[origin.id as int]@[k].walk_time < INFINITY ==> (res matches Ok(
                    j,
                ) && j.legs@.last().leg_end_time <= depart_time
                    + self.timetable.transfers@[origin.id as int]@[k].walk_time),
            forall|r: int, t: int, i: int, j: int, k: int|
                #[trigger] ride_to(&self.timetable, origin, depart_time, destination, r, t, i, j, k) && origin
                    != destination && max_transfers >= 1 ==> (res matches Ok(jr) && jr.legs@.last().leg_end_time
                    <= self.timetable.arrival_at(r, t, j)),
            origin != destination && rides_searchable(&self.timetable, origin, depart_time) ==> forall|
                legs: Seq<Leg>,
                a: Seconds,
            |
                #[trigger] feasible_journey(&self.timetable, origin, depart_time, legs, destination, a) && all_rides(legs)
                    && legs.len() <= max_transfers && a < INFINITY ==> (res matches Ok(j) && j.legs@.last().leg_end_time
                    <= a),
            origin != destination && rides_searchable(&self.timetable, origin, depart_time) && max_transfers >= 1
                ==> forall|legs: Seq<Leg>, a: Seconds|
                #[trigger] feasible_journey(&self.timetable, origin, depart_time, legs, destination, a) && legs.len()
                    == 2 && legs[0].trip_id is Some && legs[1].trip_id is None && a < INFINITY ==> (res matches Ok(j)
                    && j.legs@.last().leg_end_time <= a),
    {
        let ghost tt = self.timetable;
        let ghost n = tt.stops@.len();
        if origin == destination {
            return Ok(Journey::new(origin, destination, depart_time, Vec::new()));
        }
        let mut state = RaptorState::new(
            origin,
            destination,
            depart_time,
            self.timetable.stops.len(),
            max_transfers,
            0,
        );
        let ghost opt = rides_searchable(&tt, origin, depart_time);
        let ghost s_new = state;
        proof {
            assert(state.shaped(n, (max_transfers + 1) as nat));
            assert(parents_ok(&tt, state.parent_leg@, n, depart_time));
            assert(parents_timed(state.parent_leg@, n, depart_time));
            assert(round_timed(&state, origin, 1, n));
        }
        let mut k: usize = 0;
        while k < self.timetable.transfers[origin.id].len()
            invariant
                tt == self.timetable,
                tt.wf(),
                tt.times_fit(depart_time),
                n == tt.stops@.len(),
                origin.id < n,
                origin != destination,
                k <= tt.transfers@[origin.id as int]@.len(),
                max_transfers >= 1 || tt.transfers@[origin.id as int]@.len() == 0,
                self.state_ok(&state, destination, depart_time, max_transfers),
                forall|j: int|
                    0 <= j < k && (#[trigger] tt.transfers@[origin.id as int]@[j]).to_stop == destination
                        ==> state.tau_best@[destination.id as int] <= depart_time
                        + tt.transfers@[origin.id as int]@[j].walk_time,
                parents_timed(state.parent_leg@, n, depart_time),
                round_timed(&state, origin, 1, n),
                forall|x: int| 0 <= x < n && x != origin.id ==> #[trigger] state.tau_prev@[x] == INFINITY,
                state.tau_prev@[origin.id as int] == depart_time,
                state.marked_stops@.len() >= 1 && state.marked_stops@[0] == origin,
                opt == rides_searchable(&tt, origin, depart_time),
                opt ==> state == s_new,
            decreases tt.transfers@[origin.id as int]@.len() - k,
        {
            let transfer = self.timetable.transfers[origin.id][k];
            proof {
                assert(transfer == tt.transfers@[origin.id as int]@[k as int]);
            }
            let arr = depart_time + transfer.walk_time;
            let leg = Leg {
                origin_stop: origin,
                destination_stop: transfer.to_stop,
                leg_start_time: depart_time,
                leg_end_time: arr,
                trip_id: None,
            };
            proof {
                assert(leg_offered(&tt, leg)) by {
                    let w = tt.transfers@[origin.id as int]@[k as int];
                    assert(w == transfer);
                    assert(w.to_stop == leg.destination_stop);
                    assert(leg.leg_end_time == leg.leg_start_time + w.walk_time);
                    assert(0 <= leg.origin_stop.id < tt.transfers@.len());
                }
            }
            let ghost old_state = state;
            state.update(1, transfer.to_stop, arr, leg);
            proof {
                self.lemma_update_keeps_state(&old_state, &state, 1, transfer.to_stop, arr, leg, destination, depart_time, max_transfers);
                assert(transfer.to_stop.id < n);
                lemma_update_keeps_timed(&old_state, &state, 1, transfer.to_stop, arr, leg, origin, n);
                if transfer.to_stop == destination {
                    let d = destination.id as int;
                    assert(old_state.tau_best@[d] <= old_state.tau_current@[d]);
                }
            }
            k = k + 1;
        }
        let ghost after_walks = state.tau_best@[destination.id as int];
        proof {
            if opt {
                assert(state.tau_prev@ =~= state.tau_best@);
                assert forall|legs: Seq<Leg>, p: RaptorStopID, a: Seconds|
                    #[trigger] feasible_journey(&tt, origin, depart_time, legs, p, a) && all_rides(legs) && legs.len() <= 0
                        && a < INFINITY implies state.tau_best@[p.id as int] <= a || state.tau_best@[destination.id as int]
                        <= a by {}
                assert forall|x: int|
                    #![trigger state.tau_best@[x]]
                    0 <= x < state.tau_best@.len() && state.tau_best@[x] != INFINITY implies cexhausted(
                    &tt,
                    state.tau_best@,
                    destination,
                    x,
                    state.tau_best@[x],
                    tt.routes@.len() as int,
                ) || (state.tau_prev@[x] == state.tau_best@[x] && state.marked_stops@.contains(
                    RaptorStopID { id: x as usize },
                )) by {
                    assert(x == origin.id);
                    assert(state.marked_stops@[0] == RaptorStopID { id: x as usize });
                }
            }
        }
        let ghost mut rode = false;
        let mut round: usize = 1;
        while round <= max_transfers
            invariant_except_break
                round == 1 ==> forall|x: int| 0 <= x < n && x != origin.id ==> #[trigger] state.tau_prev@[x] == INFINITY,
                round == 1 ==> state.tau_prev@[origin.id as int] == depart_time,
                round == 1 ==> state.marked_stops@.len() >= 1 && state.marked_stops@[0] == origin,
                round >= 2 && round < state.parent_leg@.len() ==> forall|x: int|
                    0 <= x < n ==> (#[trigger] state.parent_leg@[round as int]@[x]) is None,
                opt ==> marks_listed(&state),
                opt ==> state.tau_prev@ == state.tau_best@,
                opt ==> capped_bounds(&tt, origin, depart_time, state.tau_best@, destination, (round - 1) as nat),
                opt ==> csettled(&tt, state.tau_best@, state.tau_prev@, state.marked_stops@, destination),
                opt ==> forall|y: int| 0 <= y < n ==> #[trigger] state.tau_best@[y] >= depart_time,
                opt && round >= 2 ==> ride_walk_below(&tt, origin, depart_time, destination, state.tau_best@[destination.id as int]),
            invariant
                opt == rides_searchable(&tt, origin, depart_time),
                tt == self.timetable,
                tt.wf(),
                tt.times_fit(depart_time),
                n == tt.stops@.len(),
                origin != destination,
                1 <= round <= max_transfers + 1,
                max_transfers < usize::MAX,
                self.state_ok(&state, destination, depart_time, max_transfers),
                state.tau_best@[destination.id as int] <= after_walks,
                parents_timed(state.parent_leg@, n, depart_time),
                round_timed(&state, origin, round as int, n),
                origin.id < n,
                destination.id < n,
                !rode ==> round == 1,
                rode ==> rides_below(&tt, origin, depart_time, destination, state.tau_best@[destination.id as int], tt.routes@.len() as int),
            ensures
                max_transfers >= 1 ==> rode,
                self.state_ok(&state, destination, depart_time, max_transfers),
                state.tau_best@[destination.id as int] <= after_walks,
                parents_timed(state.parent_leg@, n, depart_time),
                opt ==> capped_bounds(&tt, origin, depart_time, state.tau_best@, destination, max_transfers as nat),
                opt && max_transfers >= 1 ==> ride_walk_below(&tt, origin, depart_time, destination, state.tau_best@[destination.id as int]),
            decreases max_transfers + 1 - round,
        {
            let ghost before_start = state;
            state.start_round();
            proof {
                if round == 1 {
                    assert forall|x: int|
                        0 <= x < n && (#[trigger] before_start.parent_leg@[1]@[x]) is Some implies before_start.parent_leg@[1]@[x]->0.leg_end_time
                        <= before_start.tau_prev@[x] by {
                        assert(x != origin.id);
                    }
                }
                lemma_start_round_timed(&before_start, &state, origin, round as int, n);
            }
            let ghost route_entries_marked = state.marked_stops@;
            let route_entries = self.collect_route_entries(&state);
            let ghost prev0 = state.tau_prev@;
            let ghost best_r0 = state.tau_best@;
            let ghost cur0 = state.tau_current@;
            let ghost m0 = state.marked_stops@;
            proof {
                if opt {
                    assert forall|x: int| 0 <= x < n && state.marked@[x] implies exists|q: int|
                        0 <= q < state.marked_stops@.len() && (#[trigger] state.marked_stops@[q]).id == x by {
                        assert(state.marked@.len() == state.marked.len());
                        assert(state.marked_stops@.contains(RaptorStopID { id: x as usize }));
                        let q = choose|q: int| 0 <= q < state.marked_stops@.len() && state.marked_stops@[q] == RaptorStopID { id: x as usize };
                        assert(state.marked_stops@[q].id == x);
                    }
                }
            }
            let mut i: usize = 0;
            while i < state.marked_stops.len()
                invariant
                    tt == self.timetable,
                    n == tt.stops@.len(),
                    1 <= round <= max_transfers,
                    state.tau_current@ == cur0,
                    state.marked_stops@ == m0,
                    opt ==> forall|x: int| 0 <= x < n && state.marked@[x] ==> exists|q: int|
                        i <= q < state.marked_stops@.len() && (#[trigger] state.marked_stops@[q]).id == x,
                    self.state_ok(&state, destination, depart_time, max_transfers),
                    state.tau_best@[destination.id as int] <= after_walks,
                    parents_timed(state.parent_leg@, n, depart_time),
                    round_timed(&state, origin, round as int, n),
                    state.tau_prev@ == prev0,
                    state.tau_best@ == best_r0,
                decreases state.marked_stops@.len() - i,
            {
                let stop = state.marked_stops[i];
                proof {
                    assert(stop == state.marked_stops@[i as int]);
                }
                let ghost marked_before = state.marked@;
                state.marked.set(stop.id, false);
                proof {
                    if opt {
                        assert forall|x: int| 0 <= x < n && state.marked@[x] implies exists|q: int|
                            i + 1 <= q < state.marked_stops@.len() && (#[trigger] state.marked_stops@[q]).id == x by {
                            assert(x != stop.id);
                            assert(marked_before[x]);
                            let q = choose|q: int| i <= q < state.marked_stops@.len() && (#[trigger] state.marked_stops@[q]).id == x;
                            assert(q != i);
                        }
                    }
                }
                i = i + 1;
            }
            state.marked_stops.clear();
            let ghost s_clear = state;
            proof {
                if opt {
                    assert forall|x: int| 0 <= x < n implies !state.marked@[x] by {
                        if state.marked@[x] {
                            let q = choose|q: int| i <= q < m0.len() && (#[trigger] m0[q]).id == x;
                        }
                    }
                    assert(marks_listed(&state));
                    assert(state.tau_current@ == state.tau_best@);
                    lemma_tracks_refl(state);
                }
            }
            let route_queue = self.build_route_queue(&route_entries);
            proof {
                if opt {
                    assert forall|m: int, k: int|
                        0 <= m < m0.len() && 0 <= k < tt.routes_serving_stops@[m0[m].id as int]@.len() implies queued_at(
                        route_queue@,
                        #[trigger] tt.routes_serving_stops@[(#[trigger] m0[m]).id as int]@[k],
                    ) by {
                        let idx = lemma_marked_entries(&tt, m0, m, k);
                        assert(route_entries@[idx] == self::route_entries(&tt, m0)[idx]);
                    }
                }
            }
            proof {
                if !rode {
                    assert forall|k: int|
                        0 <= k < tt.routes_serving_stops@[origin.id as int]@.len() implies queued_at(
                        route_queue@,
                        #[trigger] tt.routes_serving_stops@[origin.id as int]@[k],
                    ) by {
                        let idx = lemma_origin_entries(&tt, route_entries_marked, origin, k);
                        assert(route_entries@[idx] == self::route_entries(&tt, route_entries_marked)[idx]);
                    }
                }
            }
            let mut route_idx: usize = 0;
            while route_idx < route_queue.len()
                invariant
                    tt == self.timetable,
                    tt.wf(),
                    n == tt.stops@.len(),
                    1 <= round <= max_transfers,
                    route_queue@.len() == tt.routes@.len(),
                    self.state_ok(&state, destination, depart_time, max_transfers),
                    state.tau_best@[destination.id as int] <= after_walks,
                    forall|q: int|
                        0 <= q < state.marked_stops@.len() ==> below_some_arrival(
                            &tt,
                            state.tau_current@[(#[trigger] state.marked_stops@[q]).id as int],
                        ),
                    parents_timed(state.parent_leg@, n, depart_time),
                    round_timed(&state, origin, round as int, n),
                    origin.id < n,
                    destination.id < n,
                    origin != destination,
                    route_idx <= route_queue@.len(),
                    state.tau_prev@ == prev0,
                    !rode ==> round == 1,
                    !rode ==> prev0[origin.id as int] == depart_time,
                    !rode ==> forall|x: int| 0 <= x < n && x != origin.id ==> #[trigger] prev0[x] == INFINITY,
                    !rode ==> forall|k: int|
                        0 <= k < tt.routes_serving_stops@[origin.id as int]@.len() ==> queued_at(
                            route_queue@,
                            #[trigger] tt.routes_serving_stops@[origin.id as int]@[k],
                        ),
                    !rode ==> rides_below(&tt, origin, depart_time, destination, state.tau_best@[destination.id as int], route_idx as int),
                    rode ==> rides_below(&tt, origin, depart_time, destination, state.tau_best@[destination.id as int], tt.routes@.len() as int),
                    opt == rides_searchable(&tt, origin, depart_time),
                    best_r0.len() == n,
                    opt ==> marks_listed(&state) && tracks_marks(s_clear, state),
                    opt ==> s_clear.tau_best@ == best_r0 && s_clear.tau_current@ == s_clear.tau_best@,
                    opt ==> prev0 == best_r0,
                    opt ==> forall|y: int| 0 <= y < n ==> #[trigger] best_r0[y] >= depart_time,
                    opt ==> forall|y: int| 0 <= y < n ==> #[trigger] state.tau_best@[y] <= best_r0[y],
                    opt ==> cmarked_exhausted(&tt, best_r0, prev0, m0, state.tau_best@, destination, route_idx as int),
                    forall|m: int| 0 <= m < m0.len() ==> (#[trigger] m0[m]).id < n,
                    opt ==> forall|m: int, k: int|
                        0 <= m < m0.len() && 0 <= k < tt.routes_serving_stops@[m0[m].id as int]@.len() ==> queued_at(
                            route_queue@,
                            #[trigger] tt.routes_serving_stops@[(#[trigger] m0[m]).id as int]@[k],
                        ),
                decreases route_queue@.len() - route_idx,
            {
                let ghost best_before = state.tau_best@;
                let ghost st_before = state;
                if let Some((_, boarding_idx)) = route_queue[route_idx] {
                    self.scan_route(
                        &mut state,
                        route_idx,
                        boarding_idx,
                        round,
                        Ghost(destination),
                        Ghost(depart_time),
                        Ghost(max_transfers),
                        Ghost(origin),
                    );
                }
                proof {
                    if opt {
                        assert(route_idx < tt.routes@.len());
                        assert(trips_in_order(&tt, route_idx as int));
                        lemma_tracks_trans(s_clear, st_before, state);
                        lemma_scan_cexhausts(&tt, route_queue@, m0, prev0, best_r0, best_before, state.tau_best@, destination, route_idx as int, depart_time);
                    }
                    let d = destination.id as int;
                    assert(state.tau_best@[d] <= best_before[d]);
                    if !rode {
                        lemma_scan_rides(&tt, origin, depart_time, destination, route_queue@, prev0, best_before[d], state.tau_best@, route_idx as int);
                    } else {
                        assert forall|r: int, t: int, i: int, j: int, k: int|
                            #[trigger] ride_to(&tt, origin, depart_time, destination, r, t, i, j, k) && r < tt.routes@.len()
                                implies state.tau_best@[d] <= tt.arrival_at(r, t, j) by {
                            assert(best_before[d] <= tt.arrival_at(r, t, j));
                        }
                    }
                }
                route_idx = route_idx + 1;
            }
            let ghost best_scanned = state.tau_best@;
            let ghost st_scanned = state;
            self.relax_transfers(
                &mut state,
                round,
                Ghost(destination),
                Ghost(depart_time),
                Ghost(max_transfers),
                Ghost(origin),
            );
            proof {
                let d = destination.id as int;
                assert(state.tau_best@[d] <= best_scanned[d]);
                assert forall|r: int, t: int, i: int, j: int, k: int|
                    #[trigger] ride_to(&tt, origin, depart_time, destination, r, t, i, j, k) && r < tt.routes@.len()
                        implies state.tau_best@[d] <= tt.arrival_at(r, t, j) by {
                    assert(best_scanned[d] <= tt.arrival_at(r, t, j));
                }
                rode = true;
            }
            proof {
                if opt {
                    lemma_tracks_trans(s_clear, st_scanned, state);
                    lemma_cmarked_lower(&tt, best_r0, prev0, m0, best_scanned, state.tau_best@, destination, tt.routes@.len() as int);
                    lemma_round_cbounds(&tt, origin, depart_time, best_r0, prev0, m0, state.tau_best@, destination, (round - 1) as nat);
                    lemma_next_settled(&tt, best_r0, prev0, m0, state.tau_best@, state.marked_stops@, destination);
                    if round == 1 {
                        lemma_round_cbounds(&tt, origin, depart_time, best_r0, prev0, m0, best_scanned, destination, 0);
                        lemma_ride_walk_found(
                            &tt,
                            origin,
                            depart_time,
                            destination,
                            best_r0,
                            best_scanned,
                            state.tau_best@,
                            st_scanned.marked_stops@,
                            st_scanned.tau_current@,
                        );
                    } else {
                        lemma_ride_walk_lower(&tt, origin, depart_time, destination, best_r0[destination.id as int], state.tau_best@[destination.id as int]);
                    }
                }
            }
            if state.marked_stops.len() == 0 {
                proof {
                    if opt {
                        lemma_cbounds_all(&tt, origin, depart_time, state.tau_best@, destination, round as nat, max_transfers as nat);
                    }
                }
                break;
            }
            let ghost before_finish = state;
            state.finish_round();
            proof {
                lemma_finish_round_timed(&before_finish, &state, origin, round as int, n);
            }
            round = round + 1;
        }
        self.reconstruct(&state, origin, destination, depart_time, max_transfers)
    }
}

} // verus!
