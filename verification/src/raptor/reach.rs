use vstd::prelude::*;

use crate::datetime::Seconds;
use crate::raptor::handler::{boardable, no_overtaking, queued};
use crate::raptor::routes::{routes_built, routes_shaped, serve_stops, serving, serving_view, RouteShape};
use crate::raptor::types::{
    attainable, count_rides, feasible_journey, leg_in_timetable, Leg, RaptorRouteServingStop, RaptorStopID, RaptorTimetable, TimetableRouteID,
    INFINITY,
};

verus! {

/// Every leg after the first rides a trip: the journey may walk from its origin, and
/// after that changes vehicles only at a stop, without walking.
pub open spec fn rides_after_first(legs: Seq<Leg>) -> bool {
    forall|i: int| 1 <= i < legs.len() ==> (#[trigger] legs[i]).trip_id is Some
}

/// A journey that rides after its first leg and takes no ride has at most one leg.
pub proof fn lemma_no_rides_at_most_one_leg(legs: Seq<Leg>)
    requires
        rides_after_first(legs),
        count_rides(legs) == 0,
    ensures
        legs.len() <= 1,
{
    if legs.len() >= 2 {
        assert(legs[legs.len() - 1].trip_id is Some);
        assert(legs.last() == legs[legs.len() - 1]);
        assert(count_rides(legs) == count_rides(legs.drop_last()) + 1);
    }
}

/// Position `i` of route `r` is listed among the routes serving the stop there.
pub open spec fn position_listed(tt: &RaptorTimetable, r: int, i: int) -> bool {
    let s = tt.routes@[r].stops@[i].id as int;
    exists|k: int|
        0 <= k < tt.routes_serving_stops@[s]@.len() && (#[trigger] tt.routes_serving_stops@[s]@[k]).route_id.id == r
            && tt.routes_serving_stops@[s]@[k].stop_sequence == i
}

/// Every position of every route is listed among the routes serving the stop there.
pub open spec fn serving_complete(tt: &RaptorTimetable) -> bool {
    forall|r: int, i: int|
        0 <= r < tt.routes@.len() && 0 <= i < tt.routes@[r].stops@.len() ==> #[trigger] position_listed(tt, r, i)
}

/// On no route does a later trip arrive anywhere before an earlier one.
pub open spec fn all_routes_fifo(tt: &RaptorTimetable) -> bool {
    forall|r: int| 0 <= r < tt.routes@.len() ==> #[trigger] no_overtaking(tt, r)
}

/// `best` holds, at the last stop of every journey from `origin` (leaving at `dep`) that
/// may walk first and then takes at most `rides` rides, no later time than the journey's
/// arrival.
pub open spec fn best_bounds_rides(
    tt: &RaptorTimetable,
    origin: RaptorStopID,
    dep: Seconds,
    best: Seq<Seconds>,
    rides: nat,
) -> bool {
    forall|legs: Seq<Leg>, p: RaptorStopID, a: Seconds|
        #[trigger] feasible_journey(tt, origin, dep, legs, p, a) && rides_after_first(legs) && count_rides(legs)
            <= rides && a < INFINITY ==> best[p.id as int] <= a
}

/// Every trip of a route among the first `upto` that leaves stop `x` at or after `from`
/// reaches each later stop of its route no earlier than `best` holds for that stop.
pub open spec fn exhausted(tt: &RaptorTimetable, best: Seq<Seconds>, x: int, from: Seconds, upto: int) -> bool {
    forall|r: int, t: int, i: int, j: int|
        0 <= r < upto && r < tt.routes@.len() && 0 <= t < tt.routes@[r].trips@.len() && 0 <= i < j
            < tt.routes@[r].stops@.len() && tt.routes@[r].stops@[i].id == x && from
            <= #[trigger] tt.departure_at(r, t, i) ==> best[tt.routes@[r].stops@[j].id as int]
            <= #[trigger] tt.arrival_at(r, t, j)
}

/// Lower times keep a stop exhausted.
pub proof fn lemma_exhausted_lower(
    tt: &RaptorTimetable,
    a: Seq<Seconds>,
    b: Seq<Seconds>,
    x: int,
    from: Seconds,
    upto: int,
)
    requires
        tt.wf(),
        exhausted(tt, a, x, from, upto),
        a.len() == tt.stops@.len(),
        b.len() == a.len(),
        forall|y: int| 0 <= y < b.len() ==> #[trigger] b[y] <= a[y],
    ensures
        exhausted(tt, b, x, from, upto),
{
    assert forall|r: int, t: int, i: int, j: int|
        0 <= r < upto && r < tt.routes@.len() && 0 <= t < tt.routes@[r].trips@.len() && 0 <= i < j
            < tt.routes@[r].stops@.len() && tt.routes@[r].stops@[i].id == x && from
            <= #[trigger] tt.departure_at(r, t, i) implies b[tt.routes@[r].stops@[j].id as int]
            <= #[trigger] tt.arrival_at(r, t, j) by {
        assert(tt.routes@[r].stops@[j].id < tt.stops@.len());
    }
}

/// A journey ends at a stop of the timetable.
pub proof fn lemma_journey_ends_at_stop(
    tt: &RaptorTimetable,
    origin: RaptorStopID,
    dep: Seconds,
    legs: Seq<Leg>,
    p: RaptorStopID,
    a: Seconds,
)
    requires
        tt.wf(),
        origin.id < tt.stops@.len(),
        feasible_journey(tt, origin, dep, legs, p, a),
    ensures
        p.id < tt.stops@.len(),
{
    if legs.len() > 0 {
        let last = legs[legs.len() - 1];
        assert(leg_in_timetable(tt, last));
        if last.trip_id is Some {
            let (r, t, i, j) = choose|r: int, t: int, i: int, j: int|
                #![trigger tt.departure_at(r, t, i), tt.arrival_at(r, t, j)]
                0 <= r < tt.routes@.len() && 0 <= t < tt.routes@[r].trips@.len() && 0 <= i < j
                    < tt.routes@[r].stops@.len() && tt.routes@[r].trips@[t].trip_id == last.trip_id->0
                    && tt.routes@[r].stops@[i] == last.origin_stop && tt.routes@[r].stops@[j]
                    == last.destination_stop && tt.departure_at(r, t, i) == last.leg_start_time
                    && tt.arrival_at(r, t, j) == last.leg_end_time;
            assert(tt.routes@[r].stops@[j].id < tt.stops@.len());
        } else {
            let k = choose|k: int|
                0 <= k < tt.transfers@[last.origin_stop.id as int]@.len() && (#[trigger] tt.transfers@[last.origin_stop.id as int]@[k]).to_stop
                    == last.destination_stop && last.leg_end_time == last.leg_start_time
                    + tt.transfers@[last.origin_stop.id as int]@[k].walk_time;
            assert(tt.transfers@[last.origin_stop.id as int]@[k].to_stop.id < tt.stops@.len());
        }
    }
}

/// Dropping the last leg of a journey leaves a journey that ends where, and no later
/// than, the last leg starts.
pub proof fn lemma_journey_prefix(
    tt: &RaptorTimetable,
    origin: RaptorStopID,
    dep: Seconds,
    legs: Seq<Leg>,
    p: RaptorStopID,
    a: Seconds,
) -> (prev_arrival: Seconds)
    requires
        feasible_journey(tt, origin, dep, legs, p, a),
        legs.len() > 0,
    ensures
        feasible_journey(tt, origin, dep, legs.drop_last(), legs.last().origin_stop, prev_arrival),
        prev_arrival <= legs.last().leg_start_time,
        rides_after_first(legs) ==> rides_after_first(legs.drop_last()),
{
    let pre = legs.drop_last();
    let n = legs.len() as int;
    if n == 1 {
        dep
    } else {
        assert(pre[0] == legs[0]);
        assert forall|i: int| 0 <= i < pre.len() implies leg_in_timetable(tt, #[trigger] pre[i]) by {
            assert(pre[i] == legs[i]);
            assert(leg_in_timetable(tt, legs[i]));
        }
        assert forall|i: int| 0 <= i < pre.len() - 1 implies (#[trigger] pre[i + 1]).origin_stop
            == pre[i].destination_stop && pre[i + 1].leg_start_time >= pre[i].leg_end_time by {
            assert(pre[i + 1] == legs[i + 1]);
            assert(pre[i] == legs[i]);
            assert(legs[i + 1].origin_stop == legs[i].destination_stop);
        }
        let m = n - 2;
        assert(legs[m + 1].origin_stop == legs[m].destination_stop && legs[m + 1].leg_start_time
            >= legs[m].leg_end_time);
        assert(pre.last() == legs[m]);
        assert forall|i: int| 1 <= i < pre.len() && rides_after_first(legs) implies (#[trigger] pre[i]).trip_id is Some by {
            assert(pre[i] == legs[i]);
        }
        pre.last().leg_end_time
    }
}

/// No journey from `origin` leaving at `dep` with at most `rides` rides reaches `stop`
/// before `dep`.
pub open spec fn none_before(tt: &RaptorTimetable, origin: RaptorStopID, dep: Seconds, stop: RaptorStopID, rides: nat) -> bool {
    forall|a: Seconds| #[trigger] attainable(tt, origin, dep, stop, a, rides) ==> a >= dep
}

/// When every trip runs forward in time, no journey arrives before it leaves.
pub proof fn lemma_forward_journey_not_before(
    tt: &RaptorTimetable,
    origin: RaptorStopID,
    dep: Seconds,
    legs: Seq<Leg>,
    p: RaptorStopID,
    a: Seconds,
)
    requires
        tt.wf(),
        tt.trips_forward_in_time(),
        feasible_journey(tt, origin, dep, legs, p, a),
    ensures
        a >= dep,
    decreases legs.len(),
{
    if legs.len() > 0 {
        let pa = lemma_journey_prefix(tt, origin, dep, legs, p, a);
        lemma_forward_journey_not_before(tt, origin, dep, legs.drop_last(), legs.last().origin_stop, pa);
        let last = legs.last();
        assert(legs[legs.len() - 1] == last);
        assert(leg_in_timetable(tt, last));
        if last.trip_id is Some {
            let (r, t, i, j) = choose|r: int, t: int, i: int, j: int|
                #![trigger tt.departure_at(r, t, i), tt.arrival_at(r, t, j)]
                0 <= r < tt.routes@.len() && 0 <= t < tt.routes@[r].trips@.len() && 0 <= i < j
                    < tt.routes@[r].stops@.len() && tt.routes@[r].trips@[t].trip_id == last.trip_id->0
                    && tt.routes@[r].stops@[i] == last.origin_stop && tt.routes@[r].stops@[j]
                    == last.destination_stop && tt.departure_at(r, t, i) == last.leg_start_time
                    && tt.arrival_at(r, t, j) == last.leg_end_time;
            assert(tt.routes@[r].trips@[t].stop_times@.len() == tt.routes@[r].stops@.len());
            assert(tt.departure_at(r, t, i) <= tt.arrival_at(r, t, j));
        }
    }
}

/// When every trip runs forward in time, nothing is reached before the departure.
pub proof fn lemma_forward_none_before(tt: &RaptorTimetable, origin: RaptorStopID, dep: Seconds, stop: RaptorStopID, rides: nat)
    requires
        tt.wf(),
        tt.trips_forward_in_time(),
    ensures
        none_before(tt, origin, dep, stop, rides),
{
    assert forall|a: Seconds| #[trigger] attainable(tt, origin, dep, stop, a, rides) implies a >= dep by {
        let legs = choose|legs: Seq<Leg>| #[trigger] feasible_journey(tt, origin, dep, legs, stop, a) && count_rides(legs) <= rides;
        lemma_forward_journey_not_before(tt, origin, dep, legs, stop, a);
    }
}

/// At the start of a round, every stop with a finite best time is exhausted from that
/// time, or the previous round reached it at that time and marked it.
pub open spec fn settled_or_marked(
    tt: &RaptorTimetable,
    best: Seq<Seconds>,
    tau_prev: Seq<Seconds>,
    marked: Seq<RaptorStopID>,
) -> bool {
    forall|x: int|
        #![trigger best[x]]
        0 <= x < best.len() && best[x] != INFINITY ==> exhausted(tt, best, x, best[x], tt.routes@.len() as int)
            || (tau_prev[x] == best[x] && marked.contains(RaptorStopID { id: x as usize }))
}

/// Every stop that the previous round reached at its best time `best0` and marked is
/// exhausted from that time, for the routes below `upto`, by the times `best`.
pub open spec fn marked_exhausted(
    tt: &RaptorTimetable,
    best0: Seq<Seconds>,
    tau_prev: Seq<Seconds>,
    marked: Seq<RaptorStopID>,
    best: Seq<Seconds>,
    upto: int,
) -> bool {
    forall|x: int|
        0 <= x < best0.len() && best0[x] != INFINITY && tau_prev[x] == best0[x] && marked.contains(
            RaptorStopID { id: x as usize },
        ) ==> #[trigger] exhausted(tt, best, x, best0[x], upto)
}

/// A round that exhausts the stops the previous round marked extends the bound on
/// ride-only journeys by one ride.
pub proof fn lemma_round_bounds(
    tt: &RaptorTimetable,
    origin: RaptorStopID,
    dep: Seconds,
    best0: Seq<Seconds>,
    tau_prev: Seq<Seconds>,
    marked: Seq<RaptorStopID>,
    best1: Seq<Seconds>,
    k: nat,
)
    requires
        tt.wf(),
        tt.departures_finite(),
        origin.id < tt.stops@.len(),
        best0.len() == tt.stops@.len(),
        best1.len() == tt.stops@.len(),
        tau_prev.len() == tt.stops@.len(),
        best_bounds_rides(tt, origin, dep, best0, k),
        settled_or_marked(tt, best0, tau_prev, marked),
        forall|y: int| 0 <= y < best1.len() ==> #[trigger] best1[y] <= best0[y],
        marked_exhausted(tt, best0, tau_prev, marked, best1, tt.routes@.len() as int),
    ensures
        best_bounds_rides(tt, origin, dep, best1, k + 1),
{
    let nr = tt.routes@.len() as int;
    assert forall|legs: Seq<Leg>, p: RaptorStopID, a: Seconds|
        #[trigger] feasible_journey(tt, origin, dep, legs, p, a) && rides_after_first(legs) && count_rides(legs)
            <= k + 1 && a < INFINITY implies best1[p.id as int] <= a by {
        lemma_journey_ends_at_stop(tt, origin, dep, legs, p, a);
        if count_rides(legs) <= k {
            assert(best0[p.id as int] <= a);
        } else {
            let pa = lemma_journey_prefix(tt, origin, dep, legs, p, a);
            let pre = legs.drop_last();
            let last = legs.last();
            assert(legs[legs.len() - 1] == last);
            assert(count_rides(legs) == count_rides(pre) + if last.trip_id is Some { 1nat } else { 0nat });
            if legs.len() == 1 {
                assert(count_rides(pre) == 0);
            }
            assert(last.trip_id is Some);
            assert(count_rides(pre) <= k);
            assert(leg_in_timetable(tt, last));
            let (r, t, i, j) = choose|r: int, t: int, i: int, j: int|
                #![trigger tt.departure_at(r, t, i), tt.arrival_at(r, t, j)]
                0 <= r < tt.routes@.len() && 0 <= t < tt.routes@[r].trips@.len() && 0 <= i < j
                    < tt.routes@[r].stops@.len() && tt.routes@[r].trips@[t].trip_id == last.trip_id->0
                    && tt.routes@[r].stops@[i] == last.origin_stop && tt.routes@[r].stops@[j]
                    == last.destination_stop && tt.departure_at(r, t, i) == last.leg_start_time
                    && tt.arrival_at(r, t, j) == last.leg_end_time;
            assert(tt.routes@[r].trips@[t].stop_times@.len() == tt.routes@[r].stops@.len());
            assert(tt.departure_at(r, t, i) < INFINITY);
            let x = last.origin_stop.id as int;
            assert(tt.routes@[r].stops@[i].id < tt.stops@.len());
            assert(best0[x] <= pa);
            assert(best0[x] != INFINITY);
            assert(tt.routes@[r].stops@[j].id < tt.stops@.len());
            if exhausted(tt, best0, x, best0[x], nr) {
                assert(best0[tt.routes@[r].stops@[j].id as int] <= tt.arrival_at(r, t, j));
                assert(best1[tt.routes@[r].stops@[j].id as int] <= best0[tt.routes@[r].stops@[j].id as int]);
            } else {
                assert(tau_prev[x] == best0[x] && marked.contains(RaptorStopID { id: x as usize }));
                assert(exhausted(tt, best1, x, best0[x], nr));
                assert(best1[tt.routes@[r].stops@[j].id as int] <= tt.arrival_at(r, t, j));
            }
        }
    }
}

/// Once every reached stop is exhausted, the bound holds for journeys of any length.
pub proof fn lemma_bounds_all(
    tt: &RaptorTimetable,
    origin: RaptorStopID,
    dep: Seconds,
    best: Seq<Seconds>,
    k: nat,
    m: nat,
)
    requires
        tt.wf(),
        tt.departures_finite(),
        origin.id < tt.stops@.len(),
        best.len() == tt.stops@.len(),
        best_bounds_rides(tt, origin, dep, best, k),
        forall|x: int|
            0 <= x < best.len() && best[x] != INFINITY ==> #[trigger] exhausted(
                tt,
                best,
                x,
                best[x],
                tt.routes@.len() as int,
            ),
    ensures
        best_bounds_rides(tt, origin, dep, best, m),
    decreases m,
{
    if m > k {
        lemma_bounds_all(tt, origin, dep, best, k, (m - 1) as nat);
        let none = Seq::<RaptorStopID>::empty();
        assert forall|x: int| 0 <= x < best.len() && best[x] != INFINITY implies exhausted(
            tt,
            best,
            x,
            best[x],
            tt.routes@.len() as int,
        ) || (best[x] == best[x] && none.contains(RaptorStopID { id: x as usize })) by {}
        assert(settled_or_marked(tt, best, best, none));
        assert(marked_exhausted(tt, best, best, none, best, tt.routes@.len() as int));
        lemma_round_bounds(tt, origin, dep, best, best, none, best, (m - 1) as nat);
    } else {
        assert forall|legs: Seq<Leg>, p: RaptorStopID, a: Seconds|
            #[trigger] feasible_journey(tt, origin, dep, legs, p, a) && rides_after_first(legs) && count_rides(legs)
                <= m && a < INFINITY implies best[p.id as int] <= a by {}
    }
}

/// Scanning route `r` from the queue's position exhausts, on `r`, every stop the
/// previous round reached at its best time and marked.
pub proof fn lemma_scan_exhausts(
    tt: &RaptorTimetable,
    queue: Seq<Option<usize>>,
    marked: Seq<RaptorStopID>,
    tau_prev: Seq<Seconds>,
    best0: Seq<Seconds>,
    before: Seq<Seconds>,
    after: Seq<Seconds>,
    r: int,
)
    requires
        tt.wf(),
        serving_complete(tt),
        queue.len() == tt.routes@.len(),
        0 <= r < queue.len(),
        forall|m: int, k: int|
            0 <= m < marked.len() && 0 <= k < tt.routes_serving_stops@[marked[m].id as int]@.len()
                ==> queued(
                queue,
                #[trigger] tt.routes_serving_stops@[(#[trigger] marked[m]).id as int]@[k],
            ),
        tau_prev.len() == tt.stops@.len(),
        best0.len() == tt.stops@.len(),
        before.len() == tt.stops@.len(),
        after.len() == tt.stops@.len(),
        marked_exhausted(tt, best0, tau_prev, marked, before, r),
        forall|y: int| 0 <= y < after.len() ==> #[trigger] after[y] <= before[y],
        queue[r] matches Some(q) ==> forall|t: int, i: int, j: int|
            0 <= t < tt.routes@[r].trips@.len() && q <= i < j < tt.routes@[r].stops@.len()
                && #[trigger] boardable(tt, tau_prev, r, t, i) ==> after[tt.routes@[r].stops@[j].id as int]
                <= #[trigger] tt.arrival_at(r, t, j),
    ensures
        marked_exhausted(tt, best0, tau_prev, marked, after, r + 1),
{
    assert forall|x: int|
        0 <= x < best0.len() && best0[x] != INFINITY && tau_prev[x] == best0[x] && marked.contains(
            RaptorStopID { id: x as usize },
        ) implies #[trigger] exhausted(tt, after, x, best0[x], r + 1) by {
        assert(exhausted(tt, before, x, best0[x], r));
        lemma_exhausted_lower(tt, before, after, x, best0[x], r);
        assert forall|r2: int, t: int, i: int, j: int|
            0 <= r2 < r + 1 && r2 < tt.routes@.len() && 0 <= t < tt.routes@[r2].trips@.len() && 0 <= i
                < j < tt.routes@[r2].stops@.len() && tt.routes@[r2].stops@[i].id == x && best0[x]
                <= #[trigger] tt.departure_at(r2, t, i) implies after[tt.routes@[r2].stops@[j].id as int]
                <= #[trigger] tt.arrival_at(r2, t, j) by {
            if r2 == r {
                let s = tt.routes@[r].stops@[i];
                assert(position_listed(tt, r, i));
                let k = choose|k: int|
                    0 <= k < tt.routes_serving_stops@[s.id as int]@.len()
                        && (#[trigger] tt.routes_serving_stops@[s.id as int]@[k]).route_id.id == r
                        && tt.routes_serving_stops@[s.id as int]@[k].stop_sequence == i;
                let m = choose|m: int| 0 <= m < marked.len() && marked[m] == RaptorStopID { id: x as usize };
                assert(marked[m] == s);
                assert(queued(queue, tt.routes_serving_stops@[marked[m].id as int]@[k]));
                assert(boardable(tt, tau_prev, r, t, i));
            }
        }
    }
}

/// Lower times keep the marked stops exhausted.
pub proof fn lemma_marked_exhausted_lower(
    tt: &RaptorTimetable,
    best0: Seq<Seconds>,
    tau_prev: Seq<Seconds>,
    marked: Seq<RaptorStopID>,
    a: Seq<Seconds>,
    b: Seq<Seconds>,
    upto: int,
)
    requires
        tt.wf(),
        marked_exhausted(tt, best0, tau_prev, marked, a, upto),
        a.len() == tt.stops@.len(),
        b.len() == a.len(),
        forall|y: int| 0 <= y < b.len() ==> #[trigger] b[y] <= a[y],
    ensures
        marked_exhausted(tt, best0, tau_prev, marked, b, upto),
{
    assert forall|x: int|
        0 <= x < best0.len() && best0[x] != INFINITY && tau_prev[x] == best0[x] && marked.contains(
            RaptorStopID { id: x as usize },
        ) implies #[trigger] exhausted(tt, b, x, best0[x], upto) by {
        lemma_exhausted_lower(tt, a, b, x, best0[x], upto);
    }
}

/// At the end of a round every stop with a finite best time is exhausted from it, or
/// was improved this round, holds that time as the round's and is among its marked
/// stops.
pub proof fn lemma_round_settles(
    tt: &RaptorTimetable,
    best0: Seq<Seconds>,
    tau_prev: Seq<Seconds>,
    marked_prev: Seq<RaptorStopID>,
    best1: Seq<Seconds>,
    tau_current: Seq<Seconds>,
    marked_current: Seq<RaptorStopID>,
)
    requires
        tt.wf(),
        best0.len() == tt.stops@.len(),
        best1.len() == tt.stops@.len(),
        settled_or_marked(tt, best0, tau_prev, marked_prev),
        marked_exhausted(tt, best0, tau_prev, marked_prev, best1, tt.routes@.len() as int),
        forall|y: int| 0 <= y < best1.len() ==> #[trigger] best1[y] <= best0[y],
        forall|y: int|
            0 <= y < best1.len() && #[trigger] best1[y] < best0[y] ==> tau_current[y] == best1[y]
                && marked_current.contains(RaptorStopID { id: y as usize }),
    ensures
        settled_or_marked(tt, best1, tau_current, marked_current),
{
    let nr = tt.routes@.len() as int;
    assert forall|x: int| 0 <= x < best1.len() && best1[x] != INFINITY implies exhausted(
        tt,
        best1,
        x,
        best1[x],
        nr,
    ) || (tau_current[x] == best1[x] && marked_current.contains(RaptorStopID { id: x as usize })) by {
        if best1[x] >= best0[x] {
            assert(best0[x] == best1[x]);
            if exhausted(tt, best0, x, best0[x], nr) {
                lemma_exhausted_lower(tt, best0, best1, x, best0[x], nr);
            } else {
                assert(exhausted(tt, best1, x, best0[x], nr));
            }
        }
    }
}

/// Position `i` of route `r` is listed among the routes serving stop `s`.
pub open spec fn listed(rss: Seq<Seq<RaptorRouteServingStop>>, s: int, r: int, i: int) -> bool {
    exists|k: int|
        0 <= k < rss[s].len() && (#[trigger] rss[s][k]).route_id.id == r && rss[s][k].stop_sequence == i
}

/// `b` holds every entry of `a` at the same place.
pub open spec fn keeps_entries(a: Seq<Seq<RaptorRouteServingStop>>, b: Seq<Seq<RaptorRouteServingStop>>) -> bool {
    &&& b.len() == a.len()
    &&& forall|s: int| 0 <= s < a.len() ==> a[s].len() <= #[trigger] b[s].len()
    &&& forall|s: int, k: int| 0 <= s < a.len() && 0 <= k < a[s].len() ==> #[trigger] b[s][k] == a[s][k]
}

/// Adding the first `p` stops of a route keeps every entry and lists each of those
/// positions at its stop.
proof fn lemma_serve_stops_lists(
    rss: Seq<Seq<RaptorRouteServingStop>>,
    stops: Seq<RaptorStopID>,
    route: usize,
    p: nat,
)
    requires
        p <= stops.len() <= usize::MAX,
        forall|i: int| 0 <= i < stops.len() ==> (#[trigger] stops[i]).id < rss.len(),
    ensures
        keeps_entries(rss, serve_stops(rss, stops, route, p)),
        forall|i: int|
            0 <= i < p ==> listed(serve_stops(rss, stops, route, p), (#[trigger] stops[i]).id as int, route as int, i),
    decreases p,
{
    if p == 0 {
        assert(serve_stops(rss, stops, route, 0) == rss);
    } else {
        lemma_serve_stops_lists(rss, stops, route, (p - 1) as nat);
        let prev = serve_stops(rss, stops, route, (p - 1) as nat);
        let cur = serve_stops(rss, stops, route, p);
        let s0 = stops[p - 1].id as int;
        let e = RaptorRouteServingStop { route_id: TimetableRouteID { id: route }, stop_sequence: (p - 1) as usize };
        assert(cur == prev.update(s0, prev[s0].push(e)));
        assert forall|s: int| 0 <= s < rss.len() implies rss[s].len() <= #[trigger] cur[s].len() by {
            assert(rss[s].len() <= prev[s].len());
        }
        assert forall|s: int, k: int| 0 <= s < rss.len() && 0 <= k < rss[s].len() implies #[trigger] cur[s][k]
            == rss[s][k] by {
            assert(rss[s].len() <= prev[s].len());
            assert(prev[s][k] == rss[s][k]);
            if s == s0 {
                assert(cur[s] == prev[s].push(e));
            } else {
                assert(cur[s] == prev[s]);
            }
        }
        assert(prev.len() == rss.len());
        assert(cur.len() == rss.len());
        assert(keeps_entries(rss, cur));
        assert forall|i: int| 0 <= i < p implies listed(cur, (#[trigger] stops[i]).id as int, route as int, i) by {
            let si = stops[i].id as int;
            if i == p - 1 {
                assert(si == s0);
                assert(cur[si] == prev[si].push(e));
                assert(cur[si][prev[si].len() as int] == e);
            } else {
                assert(listed(prev, si, route as int, i));
                let k = choose|k: int|
                    0 <= k < prev[si].len() && (#[trigger] prev[si][k]).route_id.id == route as int
                        && prev[si][k].stop_sequence == i;
                assert(0 <= si < prev.len());
                assert(cur[si][k] == prev[si][k]);
            }
        }
    }
}

/// The routes serving stops, built from the first `k` routes, list every position of
/// those routes at its stop.
proof fn lemma_serving_lists(rs: Seq<RouteShape>, n: nat, k: nat)
    requires
        k <= rs.len() <= usize::MAX,
        forall|r: int| 0 <= r < rs.len() ==> (#[trigger] rs[r]).0.len() <= usize::MAX,
        forall|r: int, i: int| 0 <= r < rs.len() && 0 <= i < rs[r].0.len() ==> (#[trigger] rs[r].0[i]).id < n,
    ensures
        serving(rs, n, k).len() == n,
        forall|r: int, i: int|
            0 <= r < k && 0 <= i < rs[r].0.len() ==> listed(serving(rs, n, k), (#[trigger] rs[r].0[i]).id as int, r, i),
    decreases k,
{
    if k > 0 {
        lemma_serving_lists(rs, n, (k - 1) as nat);
        let prev = serving(rs, n, (k - 1) as nat);
        let stops = rs[k - 1].0;
        assert forall|i: int| 0 <= i < stops.len() implies (#[trigger] stops[i]).id < prev.len() by {
            assert(rs[k - 1].0[i].id < n);
        }
        assert(rs[k - 1].0.len() <= usize::MAX);
        lemma_serve_stops_lists(prev, stops, (k - 1) as usize, stops.len());
        let cur = serving(rs, n, k);
        assert forall|r: int, i: int|
            0 <= r < k && 0 <= i < rs[r].0.len() implies listed(cur, (#[trigger] rs[r].0[i]).id as int, r, i) by {
            let si = rs[r].0[i].id as int;
            if r == k - 1 {
                assert(stops[i] == rs[r].0[i]);
            } else {
                assert(listed(prev, si, r, i));
                let q = choose|q: int| 0 <= q < prev[si].len() && (#[trigger] prev[si][q]).route_id.id == r
                    && prev[si][q].stop_sequence == i;
                assert(0 <= si < prev.len());
                assert(cur[si][q] == prev[si][q]);
            }
        }
    }
}


/// A timetable whose routes and routes serving stops were built together from the same
/// routes lists every position of every route among the routes serving its stop.
pub proof fn lemma_built_serving_complete(tt: &RaptorTimetable, rs: Seq<RouteShape>, n: nat)
    requires
        routes_built(tt.routes@, tt.routes_serving_stops@, rs, n),
        routes_shaped(tt.routes@, tt.routes_serving_stops@, n),
    ensures
        serving_complete(tt),
{
    let routes = tt.routes@;
    assert(rs.len() == routes.len());
    assert(tt.routes.len() == routes.len());
    assert forall|r: int| 0 <= r < rs.len() implies (#[trigger] rs[r]).0 == routes[r].stops@ by {
        assert(rs[r] == (routes[r].stops@, crate::raptor::routes::trips_view(routes[r].trips@)));
    }
    assert forall|r: int, i: int| 0 <= r < rs.len() && 0 <= i < rs[r].0.len() implies (#[trigger] rs[r].0[i]).id < n by {
        assert(rs[r].0 == routes[r].stops@);
        assert(routes[r].stops@[i].id < n);
    }
    assert forall|r: int| 0 <= r < rs.len() implies (#[trigger] rs[r]).0.len() <= usize::MAX by {
        assert(rs[r].0 == routes[r].stops@);
        assert(routes[r].stops.len() == routes[r].stops@.len());
    }
    lemma_serving_lists(rs, n, rs.len());
    let sv = serving(rs, n, rs.len());
    assert forall|r: int, i: int| 0 <= r < tt.routes@.len() && 0 <= i < tt.routes@[r].stops@.len() implies #[trigger] position_listed(
        tt,
        r,
        i,
    ) by {
        assert(rs[r].0 == routes[r].stops@);
        assert(rs[r].0[i] == routes[r].stops@[i]);
        let si = routes[r].stops@[i].id as int;
        assert(listed(sv, si, r, i));
        let k = choose|k: int| 0 <= k < sv[si].len() && (#[trigger] sv[si][k]).route_id.id == r
            && sv[si][k].stop_sequence == i;
        assert(tt.routes_serving_stops@[si]@ == sv[si]);
        assert(tt.routes_serving_stops@[si]@[k] == sv[si][k]);
    }
}

/// The same, for some routes the timetable was built from.
pub proof fn lemma_built_serving_complete_some(tt: &RaptorTimetable, n: nat)
    requires
        exists|rs: Seq<RouteShape>| routes_built(tt.routes@, tt.routes_serving_stops@, rs, n),
        routes_shaped(tt.routes@, tt.routes_serving_stops@, n),
    ensures
        serving_complete(tt),
{
    let rs = choose|rs: Seq<RouteShape>| routes_built(tt.routes@, tt.routes_serving_stops@, rs, n);
    lemma_built_serving_complete(tt, rs, n);
}

/// Leaving earlier, or allowing more rides, never arrives later: whatever a journey from
/// `origin` leaving at `t1` with at most `k1` rides reaches by `a1`, a journey leaving at
/// `t2`, no later than `t1`, with at most `k2` rides, no fewer than `k1`, reaches by `a1`
/// too. Every bound a query states over the journeys of its own departure and rides so
/// carries over to a query that leaves later or allows fewer rides.
pub proof fn lemma_earlier_departure_never_later(
    tt: &RaptorTimetable,
    origin: RaptorStopID,
    dest: RaptorStopID,
    t1: Seconds,
    k1: nat,
    a1: Seconds,
    t2: Seconds,
    k2: nat,
)
    requires
        attainable(tt, origin, t1, dest, a1, k1),
        t2 <= t1,
        k1 <= k2,
    ensures
        exists|legs: Seq<Leg>, a: Seconds|
            #[trigger] feasible_journey(tt, origin, t2, legs, dest, a) && count_rides(legs) <= k2 && a <= a1,
{
    let legs = choose|legs: Seq<Leg>| #[trigger] feasible_journey(tt, origin, t1, legs, dest, a1) && count_rides(legs) <= k1;
    if legs.len() == 0 {
        assert(feasible_journey(tt, origin, t2, legs, dest, t2));
    } else {
        assert(feasible_journey(tt, origin, t2, legs, dest, a1));
    }
}

/// Walking from `y` to `x` and then on to another stop `d` is never quicker than some
/// single walk from `y` to `d`.
pub open spec fn walks_closed(tt: &RaptorTimetable) -> bool {
    forall|y: int, k1: int, k2: int|
        0 <= y < tt.transfers@.len() && 0 <= k1 < tt.transfers@[y]@.len() && 0 <= k2
            < tt.transfers@[(#[trigger] tt.transfers@[y]@[k1]).to_stop.id as int]@.len()
            && (#[trigger] tt.transfers@[tt.transfers@[y]@[k1].to_stop.id as int]@[k2]).to_stop.id != y
            ==> exists|k3: int|
            0 <= k3 < tt.transfers@[y]@.len() && (#[trigger] tt.transfers@[y]@[k3]).to_stop
                == tt.transfers@[tt.transfers@[y]@[k1].to_stop.id as int]@[k2].to_stop
                && tt.transfers@[y]@[k3].walk_time <= tt.transfers@[y]@[k1].walk_time
                + tt.transfers@[tt.transfers@[y]@[k1].to_stop.id as int]@[k2].walk_time
}

/// Every walk from `x`, started at `from`, reaches its stop no earlier than `best`
/// holds for it.
pub open spec fn walks_exhausted(tt: &RaptorTimetable, best: Seq<Seconds>, x: int, from: int) -> bool {
    forall|k: int|
        0 <= k < tt.transfers@[x]@.len() ==> best[(#[trigger] tt.transfers@[x]@[k]).to_stop.id as int]
            <= from + tt.transfers@[x]@[k].walk_time
}

/// Walks are exhausted from every stop reached, from its best time.
pub open spec fn all_walks_exhausted(tt: &RaptorTimetable, best: Seq<Seconds>) -> bool {
    forall|x: int|
        0 <= x < best.len() && best[x] != INFINITY ==> #[trigger] walks_exhausted(tt, best, x, best[x] as int)
}

/// `best` holds, at the last stop of every journey from `origin` (leaving at `dep`) with
/// at most `rides` rides, no later time than the journey's arrival.
pub open spec fn best_bounds_journeys(
    tt: &RaptorTimetable,
    origin: RaptorStopID,
    dep: Seconds,
    best: Seq<Seconds>,
    rides: nat,
) -> bool {
    forall|legs: Seq<Leg>, p: RaptorStopID, a: Seconds|
        #[trigger] feasible_journey(tt, origin, dep, legs, p, a) && count_rides(legs) <= rides && a
            < INFINITY ==> best[p.id as int] <= a
}

/// Lower times keep every walk exhausted from the same start.
pub proof fn lemma_walks_exhausted_lower(tt: &RaptorTimetable, a: Seq<Seconds>, b: Seq<Seconds>, x: int, from: int)
    requires
        tt.wf(),
        0 <= x < tt.stops@.len(),
        walks_exhausted(tt, a, x, from),
        a.len() == tt.stops@.len(),
        b.len() == a.len(),
        forall|y: int| 0 <= y < b.len() ==> #[trigger] b[y] <= a[y],
    ensures
        walks_exhausted(tt, b, x, from),
{
    assert forall|k: int| 0 <= k < tt.transfers@[x]@.len() implies b[(#[trigger] tt.transfers@[x]@[k]).to_stop.id as int]
        <= from + tt.transfers@[x]@[k].walk_time by {
        assert(tt.transfers@[x]@[k].to_stop.id < tt.stops@.len());
    }
}

/// The bound on journeys reached by one round: every journey with at most one more ride
/// than the previous round's bound.
pub proof fn lemma_journey_bound(
    tt: &RaptorTimetable,
    origin: RaptorStopID,
    dep: Seconds,
    best0: Seq<Seconds>,
    tau_prev: Seq<Seconds>,
    marked: Seq<RaptorStopID>,
    best1: Seq<Seconds>,
    k: nat,
    legs: Seq<Leg>,
    p: RaptorStopID,
    a: Seconds,
)
    requires
        tt.wf(),
        tt.departures_finite(),
        origin.id < tt.stops@.len(),
        best0.len() == tt.stops@.len(),
        best1.len() == tt.stops@.len(),
        tau_prev.len() == tt.stops@.len(),
        best_bounds_journeys(tt, origin, dep, best0, k),
        settled_or_marked(tt, best0, tau_prev, marked),
        forall|y: int| 0 <= y < best1.len() ==> #[trigger] best1[y] <= best0[y],
        marked_exhausted(tt, best0, tau_prev, marked, best1, tt.routes@.len() as int),
        all_walks_exhausted(tt, best1),
        feasible_journey(tt, origin, dep, legs, p, a),
        count_rides(legs) <= k + 1,
        a < INFINITY,
    ensures
        best1[p.id as int] <= a,
    decreases legs.len(),
{
    let nr = tt.routes@.len() as int;
    lemma_journey_ends_at_stop(tt, origin, dep, legs, p, a);
    if legs.len() == 0 {
        assert(best0[p.id as int] <= a);
    } else {
        let pa = lemma_journey_prefix(tt, origin, dep, legs, p, a);
        let pre = legs.drop_last();
        let last = legs.last();
        assert(legs[legs.len() - 1] == last);
        assert(leg_in_timetable(tt, last));
        let x = last.origin_stop.id as int;
        if last.trip_id is None {
            assert(count_rides(legs) == count_rides(pre));
            let kk = choose|kk: int|
                0 <= kk < tt.transfers@[x]@.len() && (#[trigger] tt.transfers@[x]@[kk]).to_stop
                    == last.destination_stop && last.leg_end_time == last.leg_start_time
                    + tt.transfers@[x]@[kk].walk_time;
            lemma_journey_bound(tt, origin, dep, best0, tau_prev, marked, best1, k, pre, last.origin_stop, pa);
            lemma_journey_ends_at_stop(tt, origin, dep, pre, last.origin_stop, pa);
            assert(best1[x] != INFINITY);
            assert(walks_exhausted(tt, best1, x, best1[x] as int));
            assert(best1[tt.transfers@[x]@[kk].to_stop.id as int] <= best1[x] + tt.transfers@[x]@[kk].walk_time);
        } else {
            assert(count_rides(legs) == count_rides(pre) + 1);
            let (r, t, i, j) = choose|r: int, t: int, i: int, j: int|
                #![trigger tt.departure_at(r, t, i), tt.arrival_at(r, t, j)]
                0 <= r < tt.routes@.len() && 0 <= t < tt.routes@[r].trips@.len() && 0 <= i < j
                    < tt.routes@[r].stops@.len() && tt.routes@[r].trips@[t].trip_id == last.trip_id->0
                    && tt.routes@[r].stops@[i] == last.origin_stop && tt.routes@[r].stops@[j]
                    == last.destination_stop && tt.departure_at(r, t, i) == last.leg_start_time
                    && tt.arrival_at(r, t, j) == last.leg_end_time;
            assert(tt.routes@[r].trips@[t].stop_times@.len() == tt.routes@[r].stops@.len());
            assert(tt.departure_at(r, t, i) < INFINITY);
            assert(tt.routes@[r].stops@[i].id < tt.stops@.len());
            assert(best0[x] <= pa);
            assert(best0[x] != INFINITY);
            assert(tt.routes@[r].stops@[j].id < tt.stops@.len());
            if exhausted(tt, best0, x, best0[x], nr) {
                assert(best0[tt.routes@[r].stops@[j].id as int] <= tt.arrival_at(r, t, j));
                assert(best1[tt.routes@[r].stops@[j].id as int] <= best0[tt.routes@[r].stops@[j].id as int]);
            } else {
                assert(tau_prev[x] == best0[x] && marked.contains(RaptorStopID { id: x as usize }));
                assert(exhausted(tt, best1, x, best0[x], nr));
                assert(best1[tt.routes@[r].stops@[j].id as int] <= tt.arrival_at(r, t, j));
            }
        }
    }
}

/// A round that exhausts the marked stops and every walk extends the bound on journeys
/// by one ride.
pub proof fn lemma_round_bounds_journeys(
    tt: &RaptorTimetable,
    origin: RaptorStopID,
    dep: Seconds,
    best0: Seq<Seconds>,
    tau_prev: Seq<Seconds>,
    marked: Seq<RaptorStopID>,
    best1: Seq<Seconds>,
    k: nat,
)
    requires
        tt.wf(),
        tt.departures_finite(),
        origin.id < tt.stops@.len(),
        best0.len() == tt.stops@.len(),
        best1.len() == tt.stops@.len(),
        tau_prev.len() == tt.stops@.len(),
        best_bounds_journeys(tt, origin, dep, best0, k),
        settled_or_marked(tt, best0, tau_prev, marked),
        forall|y: int| 0 <= y < best1.len() ==> #[trigger] best1[y] <= best0[y],
        marked_exhausted(tt, best0, tau_prev, marked, best1, tt.routes@.len() as int),
        all_walks_exhausted(tt, best1),
    ensures
        best_bounds_journeys(tt, origin, dep, best1, k + 1),
{
    assert forall|legs: Seq<Leg>, p: RaptorStopID, a: Seconds|
        #[trigger] feasible_journey(tt, origin, dep, legs, p, a) && count_rides(legs) <= k + 1 && a
            < INFINITY implies best1[p.id as int] <= a by {
        lemma_journey_bound(tt, origin, dep, best0, tau_prev, marked, best1, k, legs, p, a);
    }
}

/// Walks alone, from an origin reached at `dep`, are bounded once every walk is exhausted.
pub proof fn lemma_walk_journeys_bounded(
    tt: &RaptorTimetable,
    origin: RaptorStopID,
    dep: Seconds,
    best: Seq<Seconds>,
    legs: Seq<Leg>,
    p: RaptorStopID,
    a: Seconds,
)
    requires
        tt.wf(),
        origin.id < tt.stops@.len(),
        best.len() == tt.stops@.len(),
        best[origin.id as int] <= dep,
        all_walks_exhausted(tt, best),
        feasible_journey(tt, origin, dep, legs, p, a),
        count_rides(legs) == 0,
        a < INFINITY,
    ensures
        best[p.id as int] <= a,
    decreases legs.len(),
{
    if legs.len() > 0 {
        let pa = lemma_journey_prefix(tt, origin, dep, legs, p, a);
        let pre = legs.drop_last();
        let last = legs.last();
        assert(legs[legs.len() - 1] == last);
        assert(leg_in_timetable(tt, last));
        assert(count_rides(legs) == count_rides(pre) + if last.trip_id is Some { 1nat } else { 0nat });
        assert(last.trip_id is None);
        let x = last.origin_stop.id as int;
        let kk = choose|kk: int|
            0 <= kk < tt.transfers@[x]@.len() && (#[trigger] tt.transfers@[x]@[kk]).to_stop
                == last.destination_stop && last.leg_end_time == last.leg_start_time
                + tt.transfers@[x]@[kk].walk_time;
        lemma_walk_journeys_bounded(tt, origin, dep, best, pre, last.origin_stop, pa);
        lemma_journey_ends_at_stop(tt, origin, dep, pre, last.origin_stop, pa);
        assert(best[x] != INFINITY);
        assert(walks_exhausted(tt, best, x, best[x] as int));
        assert(best[tt.transfers@[x]@[kk].to_stop.id as int] <= best[x] + tt.transfers@[x]@[kk].walk_time);
    }
}

/// Once every reached stop is exhausted, by rides and by walks, the bound holds for
/// journeys with any number of rides.
pub proof fn lemma_bounds_all_journeys(
    tt: &RaptorTimetable,
    origin: RaptorStopID,
    dep: Seconds,
    best: Seq<Seconds>,
    k: nat,
    m: nat,
)
    requires
        tt.wf(),
        tt.departures_finite(),
        origin.id < tt.stops@.len(),
        best.len() == tt.stops@.len(),
        best_bounds_journeys(tt, origin, dep, best, k),
        all_walks_exhausted(tt, best),
        forall|x: int|
            0 <= x < best.len() && best[x] != INFINITY ==> #[trigger] exhausted(
                tt,
                best,
                x,
                best[x],
                tt.routes@.len() as int,
            ),
    ensures
        best_bounds_journeys(tt, origin, dep, best, m),
    decreases m,
{
    if m > k {
        lemma_bounds_all_journeys(tt, origin, dep, best, k, (m - 1) as nat);
        let none = Seq::<RaptorStopID>::empty();
        assert forall|x: int| 0 <= x < best.len() && best[x] != INFINITY implies exhausted(
            tt,
            best,
            x,
            best[x],
            tt.routes@.len() as int,
        ) || (best[x] == best[x] && none.contains(RaptorStopID { id: x as usize })) by {}
        assert(settled_or_marked(tt, best, best, none));
        assert(marked_exhausted(tt, best, best, none, best, tt.routes@.len() as int));
        lemma_round_bounds_journeys(tt, origin, dep, best, best, none, best, (m - 1) as nat);
    } else {
        assert forall|legs: Seq<Leg>, p: RaptorStopID, a: Seconds|
            #[trigger] feasible_journey(tt, origin, dep, legs, p, a) && count_rides(legs) <= m && a
                < INFINITY implies best[p.id as int] <= a by {}
    }
}

/// After the walks from the origin, every walk is exhausted when the walks compose and
/// the origin's walks lead to distinct stops other than itself.
pub proof fn lemma_start_walks(tt: &RaptorTimetable, origin: RaptorStopID, dep: Seconds, best: Seq<Seconds>)
    requires
        tt.wf(),
        origin.id < tt.stops@.len(),
        best.len() == tt.stops@.len(),
        walks_closed(tt),
        best[origin.id as int] == dep,
        forall|k: int|
            0 <= k < tt.transfers@[origin.id as int]@.len() ==> best[(#[trigger] tt.transfers@[origin.id as int]@[k]).to_stop.id as int]
                <= dep + tt.transfers@[origin.id as int]@[k].walk_time,
        forall|x: int|
            #![trigger best[x]]
            0 <= x < best.len() && best[x] != INFINITY ==> x == origin.id || exists|k: int|
                0 <= k < tt.transfers@[origin.id as int]@.len()
                    && (#[trigger] tt.transfers@[origin.id as int]@[k]).to_stop.id == x && best[x] == dep
                    + tt.transfers@[origin.id as int]@[k].walk_time,
    ensures
        all_walks_exhausted(tt, best),
{
    let o = origin.id as int;
    assert forall|x: int| 0 <= x < best.len() && best[x] != INFINITY implies #[trigger] walks_exhausted(
        tt,
        best,
        x,
        best[x] as int,
    ) by {
        if x != o {
            let k1 = choose|k1: int|
                0 <= k1 < tt.transfers@[o]@.len() && (#[trigger] tt.transfers@[o]@[k1]).to_stop.id == x && best[x]
                    == dep + tt.transfers@[o]@[k1].walk_time;
            assert forall|k2: int| 0 <= k2 < tt.transfers@[x]@.len() implies best[(#[trigger] tt.transfers@[x]@[k2]).to_stop.id as int]
                <= best[x] + tt.transfers@[x]@[k2].walk_time by {
                let d = tt.transfers@[x]@[k2].to_stop;
                assert(tt.transfers@[tt.transfers@[o]@[k1].to_stop.id as int]@[k2] == tt.transfers@[x]@[k2]);
                if d.id != o {
                    let k3 = choose|k3: int|
                        0 <= k3 < tt.transfers@[o]@.len() && (#[trigger] tt.transfers@[o]@[k3]).to_stop
                            == tt.transfers@[tt.transfers@[o]@[k1].to_stop.id as int]@[k2].to_stop
                            && tt.transfers@[o]@[k3].walk_time <= tt.transfers@[o]@[k1].walk_time
                            + tt.transfers@[tt.transfers@[o]@[k1].to_stop.id as int]@[k2].walk_time;
                    assert(best[tt.transfers@[o]@[k3].to_stop.id as int] <= dep + tt.transfers@[o]@[k3].walk_time);
                }
            }
        }
    }
}

/// The first `upto` walks from `x`, started at `from`, reach their stops no earlier than
/// `best` holds for them.
pub open spec fn walks_upto(tt: &RaptorTimetable, best: Seq<Seconds>, x: int, from: int, upto: int) -> bool {
    forall|k: int|
        0 <= k < upto && k < tt.transfers@[x]@.len() ==> best[(#[trigger] tt.transfers@[x]@[k]).to_stop.id as int]
            <= from + tt.transfers@[x]@[k].walk_time
}

/// How many walks of the `j`-th stop of the list are done, when the stops before `i` are
/// done and the `i`-th has done `k`.
pub open spec fn walks_done(tt: &RaptorTimetable, stops: Seq<RaptorStopID>, j: int, i: int, k: int) -> int {
    if j < i {
        tt.transfers@[stops[j].id as int]@.len() as int
    } else {
        k
    }
}

/// `best` at `x` is the end of a walk already done from a listed stop, started at the
/// time used for that stop.
pub open spec fn walk_witness(
    tt: &RaptorTimetable,
    stops: Seq<RaptorStopID>,
    used: Seq<Seconds>,
    best: Seq<Seconds>,
    x: int,
    i: int,
    k: int,
) -> bool {
    exists|j: int, kk: int|
        0 <= j < used.len() && 0 <= kk < walks_done(tt, stops, j, i, k) && kk < tt.transfers@[stops[j].id as int]@.len()
            && (#[trigger] tt.transfers@[stops[j].id as int]@[kk]).to_stop.id == x && best[x] == used[j]
            + tt.transfers@[stops[j].id as int]@[kk].walk_time
}

/// Progress of the walks from the listed stops: the stops before `i` have done all their
/// walks from the times `used`, the `i`-th (when it has a time) its first `k`; and each
/// stop improved below `best0` got its time by a walk done, or is still to be walked
/// from, or was walked from at its time.
pub open spec fn walks_progress(
    tt: &RaptorTimetable,
    stops: Seq<RaptorStopID>,
    used: Seq<Seconds>,
    best: Seq<Seconds>,
    best0: Seq<Seconds>,
    i: int,
    k: int,
) -> bool {
    &&& 0 <= i <= used.len() <= i + 1
    &&& used.len() <= stops.len()
    &&& 0 <= k
    &&& forall|j: int|
        0 <= j < used.len() ==> #[trigger] walks_upto(tt, best, stops[j].id as int, used[j] as int, walks_done(tt, stops, j, i, k))
    &&& forall|j: int| 0 <= j < used.len() ==> best[(#[trigger] stops[j]).id as int] <= used[j]
    &&& forall|x: int|
        #![trigger best[x]]
        0 <= x < best.len() && best[x] < best0[x] ==> walk_witness(tt, stops, used, best, x, i, k) || (exists|j: int|
            used.len() <= j < stops.len() && (#[trigger] stops[j]).id == x) || (exists|j: int|
            0 <= j < used.len() && (#[trigger] stops[j]).id == x && used[j] == best[x])
}

/// Before any walk, every improved stop is still to be walked from.
pub proof fn lemma_progress_init(tt: &RaptorTimetable, stops: Seq<RaptorStopID>, best: Seq<Seconds>, best0: Seq<Seconds>)
    requires
        best.len() <= usize::MAX,
        forall|x: int|
            0 <= x < best.len() && #[trigger] best[x] < best0[x] ==> stops.contains(RaptorStopID { id: x as usize }),
    ensures
        walks_progress(tt, stops, Seq::empty(), best, best0, 0, 0),
{
    assert forall|x: int| #![trigger best[x]] 0 <= x < best.len() && best[x] < best0[x] implies walk_witness(
        tt,
        stops,
        Seq::empty(),
        best,
        x,
        0,
        0,
    ) || (exists|j: int| 0 <= j < stops.len() && (#[trigger] stops[j]).id == x) || (exists|j: int|
        0 <= j < 0 && (#[trigger] stops[j]).id == x && Seq::<Seconds>::empty()[j] == best[x]) by {
        assert(stops.contains(RaptorStopID { id: x as usize }));
        let j = choose|j: int| 0 <= j < stops.len() && stops[j] == RaptorStopID { id: x as usize };
        assert(stops[j].id == x);
    }
}

/// Starting the walks from the `i`-th listed stop, at its current time.
pub proof fn lemma_progress_begin(
    tt: &RaptorTimetable,
    stops: Seq<RaptorStopID>,
    used: Seq<Seconds>,
    best: Seq<Seconds>,
    best0: Seq<Seconds>,
    cur: Seq<Seconds>,
    i: int,
)
    requires
        walks_progress(tt, stops, used, best, best0, i, 0),
        used.len() == i,
        i < stops.len(),
        0 <= stops[i].id < best.len(),
        best[stops[i].id as int] <= cur[stops[i].id as int],
        best[stops[i].id as int] < best0[stops[i].id as int] ==> cur[stops[i].id as int] == best[stops[i].id as int],
    ensures
        walks_progress(tt, stops, used.push(cur[stops[i].id as int]), best, best0, i, 0),
{
    let nu = used.push(cur[stops[i].id as int]);
    assert forall|j: int| 0 <= j < nu.len() implies #[trigger] walks_upto(
        tt,
        best,
        stops[j].id as int,
        nu[j] as int,
        walks_done(tt, stops, j, i, 0),
    ) by {
        if j < i {
            assert(nu[j] == used[j]);
            assert(walks_upto(tt, best, stops[j].id as int, used[j] as int, walks_done(tt, stops, j, i, 0)));
        }
    }
    assert forall|j: int| 0 <= j < nu.len() implies best[(#[trigger] stops[j]).id as int] <= nu[j] by {
        if j < i {
            assert(nu[j] == used[j]);
        }
    }
    assert forall|x: int| #![trigger best[x]] 0 <= x < best.len() && best[x] < best0[x] implies walk_witness(
        tt,
        stops,
        nu,
        best,
        x,
        i,
        0,
    ) || (exists|j: int| nu.len() <= j < stops.len() && (#[trigger] stops[j]).id == x) || (exists|j: int|
        0 <= j < nu.len() && (#[trigger] stops[j]).id == x && nu[j] == best[x]) by {
        if walk_witness(tt, stops, used, best, x, i, 0) {
            let (j, kk) = choose|j: int, kk: int|
                0 <= j < used.len() && 0 <= kk < walks_done(tt, stops, j, i, 0) && kk < tt.transfers@[stops[j].id as int]@.len()
                    && (#[trigger] tt.transfers@[stops[j].id as int]@[kk]).to_stop.id == x && best[x] == used[j]
                    + tt.transfers@[stops[j].id as int]@[kk].walk_time;
            assert(nu[j] == used[j]);
            assert(walk_witness(tt, stops, nu, best, x, i, 0));
        } else if exists|j: int| used.len() <= j < stops.len() && (#[trigger] stops[j]).id == x {
            let j = choose|j: int| used.len() <= j < stops.len() && (#[trigger] stops[j]).id == x;
            if j == i {
                assert(nu[i] == best[x]);
            }
        } else {
            let j = choose|j: int| 0 <= j < used.len() && (#[trigger] stops[j]).id == x && used[j] == best[x];
            assert(nu[j] == used[j]);
        }
    }
}

/// One walk from the `i`-th listed stop, started at its time `used[i]`.
pub proof fn lemma_progress_walk(
    tt: &RaptorTimetable,
    stops: Seq<RaptorStopID>,
    used: Seq<Seconds>,
    best: Seq<Seconds>,
    best2: Seq<Seconds>,
    best0: Seq<Seconds>,
    i: int,
    k: int,
)
    requires
        tt.wf(),
        walks_progress(tt, stops, used, best, best0, i, k),
        used.len() == i + 1,
        best.len() == tt.stops@.len(),
        forall|j: int| 0 <= j < stops.len() ==> (#[trigger] stops[j]).id < tt.stops@.len(),
        0 <= stops[i].id < tt.stops@.len(),
        k < tt.transfers@[stops[i].id as int]@.len(),
        best2.len() == best.len(),
        forall|z: int|
            0 <= z < best.len() && z != tt.transfers@[stops[i].id as int]@[k].to_stop.id ==> #[trigger] best2[z]
                == best[z],
        best2[tt.transfers@[stops[i].id as int]@[k].to_stop.id as int] <= used[i] + tt.transfers@[stops[i].id as int]@[k].walk_time,
        best2[tt.transfers@[stops[i].id as int]@[k].to_stop.id as int] <= best[tt.transfers@[stops[i].id as int]@[k].to_stop.id as int],
        best2[tt.transfers@[stops[i].id as int]@[k].to_stop.id as int] == best[tt.transfers@[stops[i].id as int]@[k].to_stop.id as int]
            || best2[tt.transfers@[stops[i].id as int]@[k].to_stop.id as int] == used[i]
            + tt.transfers@[stops[i].id as int]@[k].walk_time,
    ensures
        walks_progress(tt, stops, used, best2, best0, i, k + 1),
{
    let y = stops[i].id as int;
    let d = tt.transfers@[y]@[k].to_stop.id as int;
    assert(d < tt.stops@.len());
    assert forall|z: int| 0 <= z < best2.len() implies #[trigger] best2[z] <= best[z] by {}
    assert forall|j: int| 0 <= j < used.len() implies #[trigger] walks_upto(
        tt,
        best2,
        stops[j].id as int,
        used[j] as int,
        walks_done(tt, stops, j, i, k + 1),
    ) by {
        let sj = stops[j].id as int;
        assert(sj < tt.stops@.len());
        assert(walks_upto(tt, best, sj, used[j] as int, walks_done(tt, stops, j, i, k)));
        assert forall|kk: int|
            0 <= kk < walks_done(tt, stops, j, i, k + 1) && kk < tt.transfers@[sj]@.len() implies best2[(#[trigger] tt.transfers@[sj]@[kk]).to_stop.id as int]
            <= used[j] + tt.transfers@[sj]@[kk].walk_time by {
            assert(tt.transfers@[sj]@[kk].to_stop.id < tt.stops@.len());
            if j == i && kk == k {
            } else {
                assert(best[tt.transfers@[sj]@[kk].to_stop.id as int] <= used[j] + tt.transfers@[sj]@[kk].walk_time);
            }
        }
    }
    assert forall|j: int| 0 <= j < used.len() implies best2[(#[trigger] stops[j]).id as int] <= used[j] by {
        assert(best[stops[j].id as int] <= used[j]);
        if stops[j].id as int != d {
            assert(best2[stops[j].id as int] == best[stops[j].id as int]);
        }
    }
    assert forall|x: int| #![trigger best2[x]] 0 <= x < best2.len() && best2[x] < best0[x] implies walk_witness(
        tt,
        stops,
        used,
        best2,
        x,
        i,
        k + 1,
    ) || (exists|j: int| used.len() <= j < stops.len() && (#[trigger] stops[j]).id == x) || (exists|j: int|
        0 <= j < used.len() && (#[trigger] stops[j]).id == x && used[j] == best2[x]) by {
        if x == d && best2[x] != best[x] {
            assert(tt.transfers@[stops[i].id as int]@[k].to_stop.id == x);
            assert(walk_witness(tt, stops, used, best2, x, i, k + 1));
        } else {
            assert(best2[x] == best[x]);
            assert(best[x] < best0[x]);
            if walk_witness(tt, stops, used, best, x, i, k) {
                let (j, kk) = choose|j: int, kk: int|
                    0 <= j < used.len() && 0 <= kk < walks_done(tt, stops, j, i, k) && kk < tt.transfers@[stops[j].id as int]@.len()
                        && (#[trigger] tt.transfers@[stops[j].id as int]@[kk]).to_stop.id == x && best[x] == used[j]
                        + tt.transfers@[stops[j].id as int]@[kk].walk_time;
                assert(walk_witness(tt, stops, used, best2, x, i, k + 1));
            }
        }
    }
}

/// Done with the walks of the `i`-th listed stop.
pub proof fn lemma_progress_finish(
    tt: &RaptorTimetable,
    stops: Seq<RaptorStopID>,
    used: Seq<Seconds>,
    best: Seq<Seconds>,
    best0: Seq<Seconds>,
    i: int,
)
    requires
        walks_progress(tt, stops, used, best, best0, i, tt.transfers@[stops[i].id as int]@.len() as int),
        used.len() == i + 1,
    ensures
        walks_progress(tt, stops, used, best, best0, i + 1, 0),
{
    let full = tt.transfers@[stops[i].id as int]@.len() as int;
    assert forall|j: int| 0 <= j < used.len() implies walks_done(tt, stops, j, i, full) == walks_done(tt, stops, j, i + 1, 0) by {}
    assert forall|j: int| 0 <= j < used.len() implies #[trigger] walks_upto(
        tt,
        best,
        stops[j].id as int,
        used[j] as int,
        walks_done(tt, stops, j, i + 1, 0),
    ) by {
        assert(walks_upto(tt, best, stops[j].id as int, used[j] as int, walks_done(tt, stops, j, i, full)));
    }
    assert forall|x: int| #![trigger best[x]] 0 <= x < best.len() && best[x] < best0[x] implies walk_witness(
        tt,
        stops,
        used,
        best,
        x,
        i + 1,
        0,
    ) || (exists|j: int| used.len() <= j < stops.len() && (#[trigger] stops[j]).id == x) || (exists|j: int|
        0 <= j < used.len() && (#[trigger] stops[j]).id == x && used[j] == best[x]) by {
        if walk_witness(tt, stops, used, best, x, i, full) {
            let (j, kk) = choose|j: int, kk: int|
                0 <= j < used.len() && 0 <= kk < walks_done(tt, stops, j, i, full) && kk < tt.transfers@[stops[j].id as int]@.len()
                    && (#[trigger] tt.transfers@[stops[j].id as int]@[kk]).to_stop.id == x && best[x] == used[j]
                    + tt.transfers@[stops[j].id as int]@[kk].walk_time;
            assert(walks_done(tt, stops, j, i, full) == walks_done(tt, stops, j, i + 1, 0));
            assert(walk_witness(tt, stops, used, best, x, i + 1, 0));
        }
    }
}

/// When every listed stop has been walked from, walks that compose leave every walk
/// exhausted.
pub proof fn lemma_progress_end(
    tt: &RaptorTimetable,
    stops: Seq<RaptorStopID>,
    used: Seq<Seconds>,
    best: Seq<Seconds>,
    best0: Seq<Seconds>,
)
    requires
        tt.wf(),
        walks_closed(tt),
        walks_progress(tt, stops, used, best, best0, stops.len() as int, 0),
        used.len() == stops.len(),
        forall|j: int| 0 <= j < stops.len() ==> (#[trigger] stops[j]).id < tt.stops@.len(),
        best.len() == tt.stops@.len(),
        best0.len() == best.len(),
        all_walks_exhausted(tt, best0),
        forall|y: int| 0 <= y < best.len() ==> #[trigger] best[y] <= best0[y],
    ensures
        all_walks_exhausted(tt, best),
{
    let ns = stops.len() as int;
    assert forall|x: int| 0 <= x < best.len() && best[x] != INFINITY implies #[trigger] walks_exhausted(
        tt,
        best,
        x,
        best[x] as int,
    ) by {
        if best[x] < best0[x] {
            if walk_witness(tt, stops, used, best, x, ns, 0) {
                let (j, kk) = choose|j: int, kk: int|
                    0 <= j < used.len() && 0 <= kk < walks_done(tt, stops, j, ns, 0) && kk < tt.transfers@[stops[j].id as int]@.len()
                        && (#[trigger] tt.transfers@[stops[j].id as int]@[kk]).to_stop.id == x && best[x] == used[j]
                        + tt.transfers@[stops[j].id as int]@[kk].walk_time;
                let y = stops[j].id as int;
                assert(walks_upto(tt, best, y, used[j] as int, walks_done(tt, stops, j, ns, 0)));
                assert(best[y] <= used[j]);
                assert forall|k2: int| 0 <= k2 < tt.transfers@[x]@.len() implies best[(#[trigger] tt.transfers@[x]@[k2]).to_stop.id as int]
                    <= best[x] + tt.transfers@[x]@[k2].walk_time by {
                    assert(tt.transfers@[tt.transfers@[y]@[kk].to_stop.id as int]@[k2] == tt.transfers@[x]@[k2]);
                    if tt.transfers@[x]@[k2].to_stop.id != y {
                        let k3 = choose|k3: int|
                            0 <= k3 < tt.transfers@[y]@.len() && (#[trigger] tt.transfers@[y]@[k3]).to_stop
                                == tt.transfers@[tt.transfers@[y]@[kk].to_stop.id as int]@[k2].to_stop
                                && tt.transfers@[y]@[k3].walk_time <= tt.transfers@[y]@[kk].walk_time
                                + tt.transfers@[tt.transfers@[y]@[kk].to_stop.id as int]@[k2].walk_time;
                        assert(best[tt.transfers@[y]@[k3].to_stop.id as int] <= used[j] + tt.transfers@[y]@[k3].walk_time);
                    }
                }
            } else {
                let j = choose|j: int| 0 <= j < used.len() && (#[trigger] stops[j]).id == x && used[j] == best[x];
                assert(walks_upto(tt, best, x, used[j] as int, walks_done(tt, stops, j, ns, 0)));
            }
        } else {
            assert(best0[x] == best[x]);
            assert(walks_exhausted(tt, best0, x, best0[x] as int));
            lemma_walks_exhausted_lower(tt, best0, best, x, best0[x] as int);
        }
    }
}

/// The earliest arrival is unique: two arrivals that are each reached by a journey with
/// at most `rides` rides, and each no later than every such journey, are equal. So two
/// queries that meet their contracts under the same conditions give the same answer.
pub proof fn lemma_earliest_arrival_unique(
    tt: &RaptorTimetable,
    origin: RaptorStopID,
    dep: Seconds,
    destination: RaptorStopID,
    a1: Seconds,
    a2: Seconds,
    rides: nat,
)
    requires
        attainable(tt, origin, dep, destination, a1, rides),
        attainable(tt, origin, dep, destination, a2, rides),
        a1 < INFINITY,
        a2 < INFINITY,
        forall|legs: Seq<Leg>, a: Seconds|
            #[trigger] feasible_journey(tt, origin, dep, legs, destination, a) && count_rides(legs) <= rides
                && a < INFINITY ==> a1 <= a,
        forall|legs: Seq<Leg>, a: Seconds|
            #[trigger] feasible_journey(tt, origin, dep, legs, destination, a) && count_rides(legs) <= rides
                && a < INFINITY ==> a2 <= a,
    ensures
        a1 == a2,
{
    let l1 = choose|legs: Seq<Leg>| #[trigger] feasible_journey(tt, origin, dep, legs, destination, a1) && count_rides(legs) <= rides;
    let l2 = choose|legs: Seq<Leg>| #[trigger] feasible_journey(tt, origin, dep, legs, destination, a2) && count_rides(legs) <= rides;
    assert(feasible_journey(tt, origin, dep, l2, destination, a2));
    assert(feasible_journey(tt, origin, dep, l1, destination, a1));
}

} // verus!
