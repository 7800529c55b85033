use vstd::prelude::*;

use crate::datetime::Seconds;
use crate::errors::RaptorError;
use crate::raptor::reach::{
    lemma_earlier_departure_never_later, lemma_forward_none_before, none_before,
    all_walks_exhausted, lemma_progress_begin, lemma_progress_end, lemma_progress_finish, lemma_progress_init,
    lemma_progress_walk, walks_closed, walks_progress, best_bounds_journeys, lemma_start_walks,
    lemma_walk_journeys_bounded, lemma_round_bounds_journeys, lemma_bounds_all_journeys,
    all_routes_fifo, best_bounds_rides, lemma_bounds_all, lemma_marked_exhausted_lower, lemma_round_bounds,
    lemma_round_settles, lemma_scan_exhausts, marked_exhausted, exhausted, rides_after_first, lemma_no_rides_at_most_one_leg, serving_complete, settled_or_marked,
};
use crate::raptor::tables::{
    copy_flags, copy_legs, copy_rows, copy_stops, copy_times, empty_leg_rows, empty_rows, empty_slots, filled_flags, filled_times,
    lemma_rows_set, rows_view,
};
use crate::raptor::types::{attainable, count_rides, Journey, feasible_journey, lemma_count_rides_push, lemma_extend_journey, leg_in_timetable, Leg, RaptorQueryResult, RaptorRouteServingStop, RaptorStopID, RaptorTimetable, TimetableRouteID, INFINITY};

verus! {

/// Round-based earliest-arrival search over a timetable. The handler owns its working
/// tables so that it can be set up once and queried many times.
#[derive(Debug, Clone)]
pub struct RaptorHandler {
    timetable: RaptorTimetable,
    num_stops: usize,
    tau_prev: Vec<Seconds>,
    tau_current: Vec<Seconds>,
    tau_best: Vec<Seconds>,
    marked_prev: Vec<bool>,
    marked_current: Vec<bool>,
    marked_stops_prev: Vec<RaptorStopID>,
    marked_stops_current: Vec<RaptorStopID>,
    parent_leg: Vec<Vec<Option<Leg>>>,
}

/// Journeys that witness the times of the three tables of a handler.
pub struct Witness {
    pub prev: Seq<Seq<Leg>>,
    pub current: Seq<Seq<Leg>>,
    pub best: Seq<Seq<Leg>>,
}

/// The journeys a search has found so far, as legs per stop: those reaching each stop
/// in the previous round, in this round, and at its best time.
pub struct Journeys {
    prev: Vec<Vec<Leg>>,
    current: Vec<Vec<Leg>>,
    best: Vec<Vec<Leg>>,
}

impl Journeys {
    pub closed spec fn witness(&self) -> Witness {
        Witness { prev: rows_view(self.prev@), current: rows_view(self.current@), best: rows_view(self.best@) }
    }

    pub closed spec fn sized(&self, n: nat) -> bool {
        &&& self.prev@.len() == n
        &&& self.current@.len() == n
        &&& self.best@.len() == n
    }

    /// No journey yet.
    pub fn new(n: usize) -> (res: Self)
        ensures
            res.sized(n as nat),
    {
        Journeys { prev: empty_rows(n), current: empty_rows(n), best: empty_rows(n) }
    }
}

/// `legs` is a feasible journey with at most `rides` rides that reaches stop `x` at `t`.
pub open spec fn journey_ok(
    tt: &RaptorTimetable,
    origin: RaptorStopID,
    dep: Seconds,
    legs: Seq<Leg>,
    x: int,
    t: Seconds,
    rides: nat,
) -> bool {
    &&& feasible_journey(tt, origin, dep, legs, RaptorStopID { id: x as usize }, t)
    &&& count_rides(legs) <= rides
}

/// Every finite time of `taus` is the arrival of the matching journey of `ws`.
pub open spec fn witnessed(
    tt: &RaptorTimetable,
    origin: RaptorStopID,
    dep: Seconds,
    taus: Seq<Seconds>,
    ws: Seq<Seq<Leg>>,
    rides: nat,
) -> bool {
    &&& ws.len() == taus.len()
    &&& forall|x: int|
        0 <= x < taus.len() && taus[x] != INFINITY ==> #[trigger] journey_ok(
            tt,
            origin,
            dep,
            ws[x],
            x,
            taus[x],
            rides,
        )
}

/// `v` is no later than the arrival of some trip at some stop.
pub open spec fn below_some_arrival(tt: &RaptorTimetable, v: Seconds) -> bool {
    exists|r: int, t: int, i: int|
        0 <= r < tt.routes@.len() && 0 <= t < tt.routes@[r].trips@.len() && 0 <= i
            < tt.routes@[r].trips@[t].stop_times@.len() && v <= #[trigger] tt.arrival_at(r, t, i)
}

/// What a query answers when the earliest arrival it finds comes before the departure,
/// which only trips that go back in time can cause.
pub open spec fn arrives_before_departure_message() -> Seq<char> {
    "A journey reaches the destination before the departure time"@
}

/// Number of boardings a query allows: one more than its transfers, 10 of them by default.
pub open spec fn max_boardings(max_transfers: Option<usize>) -> nat {
    match max_transfers {
        Some(m) => (m + 1) as nat,
        None => 11,
    }
}

/// What an earliest-arrival query from `origin` to `destination` leaving at `dep` with
/// at most `max_transfers` transfers answers on timetable `tt`, as far as it depends on
/// them alone.
///
/// An answer is the arrival of a journey with no more boardings than allowed, no earlier
/// than the departure, with the time it takes and that journey; or the destination is
/// unreachable; or,
/// when some journey reaches the destination before the departure (only trips that go
/// back in time allow that), the arrival found comes before the departure and is
/// refused. Where nothing arrives before the departure, the answer is no later than any
/// single walk from the origin to the destination, nor than any direct ride on a route
/// whose trips never overtake one another, and a stop is reached from itself at once.
/// When moreover trips never overtake one another on a route nor leave at `INFINITY`, and
/// every position of a route is listed among the routes serving its stop, it is no later
/// than any journey that walks at most once, from the origin, and rides from then on;
/// when walks also compose, than any journey at all.
pub open spec fn query_answer(
    tt: &RaptorTimetable,
    origin: RaptorStopID,
    destination: RaptorStopID,
    dep: Seconds,
    max_transfers: Option<usize>,
    res: Result<RaptorQueryResult, RaptorError>,
) -> bool {
    let k = max_boardings(max_transfers);
    &&& match res {
        Ok(r) => {
            &&& r.earliest_arrival_time != INFINITY
            &&& r.earliest_arrival_time >= dep
            &&& r.travel_time == r.earliest_arrival_time - dep
            &&& r.diary matches Some(j) && j.origin == origin && j.destination == destination && j.departure_time == dep
                && feasible_journey(tt, origin, dep, j.legs@, destination, r.earliest_arrival_time) && count_rides(j.legs@)
                <= k
            &&& attainable(tt, origin, dep, destination, r.earliest_arrival_time, k)
        },
        Err(e) => {
            ||| e == RaptorError::DestinationUnreachable { origin, destination, departure_time: dep }
            ||| e matches RaptorError::InvalidGtfs(m) && m@ == arrives_before_departure_message() && !none_before(
                tt,
                origin,
                dep,
                destination,
                k,
            )
        },
    }
    &&& none_before(tt, origin, dep, destination, k) ==> forall|w: int|
        0 <= w < tt.transfers@[origin.id as int]@.len() && (#[trigger] tt.transfers@[origin.id as int]@[w]).to_stop
            == destination && dep + tt.transfers@[origin.id as int]@[w].walk_time < INFINITY ==> (res matches Ok(r)
            && r.earliest_arrival_time <= dep + tt.transfers@[origin.id as int]@[w].walk_time)
    &&& origin == destination && dep < INFINITY && none_before(tt, origin, dep, destination, k) ==> (res matches Ok(
        r,
    ) && r.travel_time == 0)
    &&& none_before(tt, origin, dep, destination, k) && dep < INFINITY ==> forall|r: int, t: int, i: int, j: int, w: int|
        #[trigger] direct_ride(tt, origin, dep, r, t, i, j, w) && no_overtaking(tt, r) && tt.routes@[r].stops@[j]
            == destination && tt.arrival_at(r, t, j) < INFINITY ==> (res matches Ok(q) && q.earliest_arrival_time
            <= tt.arrival_at(r, t, j))
    &&& serving_complete(tt) && all_routes_fifo(tt) && tt.departures_finite() && none_before(tt, origin, dep, destination, k)
        ==> forall|legs: Seq<Leg>, a: Seconds|
        #[trigger] feasible_journey(tt, origin, dep, legs, destination, a) && rides_after_first(legs) && count_rides(legs) <= k
            && a < INFINITY ==> (res matches Ok(q) && q.earliest_arrival_time <= a)
    &&& serving_complete(tt) && all_routes_fifo(tt) && tt.departures_finite() && walks_closed(tt) && none_before(
        tt,
        origin,
        dep,
        destination,
        k,
    ) ==> forall|
        legs: Seq<Leg>,
        a: Seconds,
    |
        #[trigger] feasible_journey(tt, origin, dep, legs, destination, a) && count_rides(legs) <= k && a < INFINITY
            ==> (res matches Ok(q) && q.earliest_arrival_time <= a)
}

/// Where the answer of a query is pinned (trips never overtake one another and never
/// leave at `INFINITY`, every position of a route is listed among the routes serving its
/// stop, walks compose, and nothing reaches the destination before the departure), two
/// answers to the same query on the same timetable agree: both
/// find the same arrival and travel time (possibly by different journeys of that
/// arrival), or both fail alike. A query's answer does not depend on anything else, such
/// as earlier queries.
pub proof fn lemma_query_answers_agree(
    tt: &RaptorTimetable,
    origin: RaptorStopID,
    destination: RaptorStopID,
    dep: Seconds,
    max_transfers: Option<usize>,
    r1: Result<RaptorQueryResult, RaptorError>,
    r2: Result<RaptorQueryResult, RaptorError>,
)
    requires
        tt.wf(),
        serving_complete(tt),
        all_routes_fifo(tt),
        tt.departures_finite(),
        walks_closed(tt),
        none_before(tt, origin, dep, destination, max_boardings(max_transfers)),
        query_answer(tt, origin, destination, dep, max_transfers, r1),
        query_answer(tt, origin, destination, dep, max_transfers, r2),
    ensures
        r1 is Ok <==> r2 is Ok,
        r1 matches Ok(a) ==> (r2 matches Ok(b) && a.earliest_arrival_time == b.earliest_arrival_time
            && a.travel_time == b.travel_time),
        r1 matches Err(e1) ==> (r2 matches Err(e2) && e1 == e2),
{
    lemma_answer_below(tt, origin, destination, dep, max_transfers, r1, r2);
    lemma_answer_below(tt, origin, destination, dep, max_transfers, r2, r1);
}

/// An answer found by one query bounds the answer of a pinned query with the same
/// arguments.
proof fn lemma_answer_below(
    tt: &RaptorTimetable,
    origin: RaptorStopID,
    destination: RaptorStopID,
    dep: Seconds,
    max_transfers: Option<usize>,
    r1: Result<RaptorQueryResult, RaptorError>,
    r2: Result<RaptorQueryResult, RaptorError>,
)
    requires
        serving_complete(tt),
        all_routes_fifo(tt),
        tt.departures_finite(),
        walks_closed(tt),
        none_before(tt, origin, dep, destination, max_boardings(max_transfers)),
        query_answer(tt, origin, destination, dep, max_transfers, r1),
        query_answer(tt, origin, destination, dep, max_transfers, r2),
    ensures
        r1 matches Ok(a) ==> (r2 matches Ok(b) && b.earliest_arrival_time <= a.earliest_arrival_time),
{
    if let Ok(a) = r1 {
        let legs = choose|legs: Seq<Leg>|
            #[trigger] feasible_journey(tt, origin, dep, legs, destination, a.earliest_arrival_time) && count_rides(legs)
                <= max_boardings(max_transfers);
        assert(feasible_journey(tt, origin, dep, legs, destination, a.earliest_arrival_time));
    }
}

/// A query never arrives before it leaves, and, where trips run forward in time, a stop
/// is reached from itself at once.
pub proof fn lemma_self_query_takes_no_time(
    tt: &RaptorTimetable,
    origin: RaptorStopID,
    destination: RaptorStopID,
    dep: Seconds,
    max_transfers: Option<usize>,
    r: Result<RaptorQueryResult, RaptorError>,
)
    requires
        tt.wf(),
        query_answer(tt, origin, destination, dep, max_transfers, r),
    ensures
        r matches Ok(q) ==> q.earliest_arrival_time >= dep,
        origin == destination && dep < INFINITY && tt.trips_forward_in_time() ==> (r matches Ok(q)
            && q.travel_time == 0 && q.earliest_arrival_time == dep),
{
    if tt.trips_forward_in_time() {
        lemma_forward_none_before(tt, origin, dep, destination, max_boardings(max_transfers));
    }
}

/// Leaving earlier or allowing more transfers never arrives later: where answers are
/// pinned (as for `lemma_query_answers_agree`, for the earlier query), an answer found leaving at `t1` with at most `k1` transfers means that a query
/// leaving at `t2`, no later, with at most `k2` transfers, no fewer, finds an arrival too,
/// and no later.
pub proof fn lemma_query_monotone(
    tt: &RaptorTimetable,
    origin: RaptorStopID,
    destination: RaptorStopID,
    t1: Seconds,
    k1: usize,
    r1: Result<RaptorQueryResult, RaptorError>,
    t2: Seconds,
    k2: usize,
    r2: Result<RaptorQueryResult, RaptorError>,
)
    requires
        serving_complete(tt),
        all_routes_fifo(tt),
        tt.departures_finite(),
        walks_closed(tt),
        none_before(tt, origin, t2, destination, max_boardings(Some(k2))),
        t2 <= t1,
        k1 <= k2,
        query_answer(tt, origin, destination, t1, Some(k1), r1),
        query_answer(tt, origin, destination, t2, Some(k2), r2),
    ensures
        r1 matches Ok(a) ==> (r2 matches Ok(b) && b.earliest_arrival_time <= a.earliest_arrival_time),
{
    if let Ok(a) = r1 {
        lemma_earlier_departure_never_later(
            tt,
            origin,
            destination,
            t1,
            max_boardings(Some(k1)),
            a.earliest_arrival_time,
            t2,
            max_boardings(Some(k2)),
        );
        let (legs, x) = choose|legs: Seq<Leg>, x: Seconds|
            #[trigger] feasible_journey(tt, origin, t2, legs, destination, x) && count_rides(legs) <= max_boardings(
                Some(k2),
            ) && x <= a.earliest_arrival_time;
        assert(feasible_journey(tt, origin, t2, legs, destination, x));
    }
}

/// Along route `r` no trip overtakes an earlier one: a trip later in the route's order
/// never arrives anywhere before an earlier trip does.
pub open spec fn no_overtaking(tt: &RaptorTimetable, r: int) -> bool {
    forall|u: int, v: int, p: int|
        0 <= u <= v < tt.routes@[r].trips@.len() && 0 <= p < tt.routes@[r].trips@[u].stop_times@.len()
            ==> #[trigger] tt.arrival_at(r, u, p) <= #[trigger] tt.arrival_at(r, v, p)
}

/// Trip `t` of route `r` can be boarded at position `i`, reached by the previous round.
pub open spec fn boardable(tt: &RaptorTimetable, tau_prev: Seq<Seconds>, r: int, t: int, i: int) -> bool {
    let s = tt.routes@[r].stops@[i].id as int;
    tau_prev[s] != INFINITY && tau_prev[s] <= tt.departure_at(r, t, i)
}

/// The queue scans the route of `e` from `e`'s position or from an earlier one.
pub open spec fn queued(queue: Seq<Option<usize>>, e: RaptorRouteServingStop) -> bool {
    &&& 0 <= e.route_id.id < queue.len()
    &&& queue[e.route_id.id as int] matches Some(q) && q <= e.stop_sequence
}

/// Boarding trip `t` of route `r` at the origin, which is position `i` of the route and
/// entry `k` of the routes serving the origin, no earlier than `dep`, and riding it on to
/// position `j`.
pub open spec fn direct_ride(
    tt: &RaptorTimetable,
    origin: RaptorStopID,
    dep: Seconds,
    r: int,
    t: int,
    i: int,
    j: int,
    k: int,
) -> bool {
    &&& 0 <= origin.id < tt.routes_serving_stops@.len()
    &&& 0 <= k < tt.routes_serving_stops@[origin.id as int]@.len()
    &&& tt.routes_serving_stops@[origin.id as int]@[k].route_id.id == r
    &&& tt.routes_serving_stops@[origin.id as int]@[k].stop_sequence == i
    &&& 0 <= r < tt.routes@.len()
    &&& 0 <= t < tt.routes@[r].trips@.len()
    &&& 0 <= i < j < tt.routes@[r].stops@.len()
    &&& tt.routes@[r].stops@[i] == origin
    &&& dep <= tt.departure_at(r, t, i)
}

/// For every direct ride on a route numbered below `upto` whose trips do not overtake one
/// another, `best` holds no later time at the ride's last stop than the ride's arrival.
pub open spec fn rides_bounded(
    tt: &RaptorTimetable,
    origin: RaptorStopID,
    dep: Seconds,
    best: Seq<Seconds>,
    upto: int,
) -> bool {
    forall|r: int, t: int, i: int, j: int, k: int|
        #[trigger] direct_ride(tt, origin, dep, r, t, i, j, k) && r < upto && no_overtaking(tt, r)
            && tt.arrival_at(r, t, j) < INFINITY ==> best[tt.routes@[r].stops@[j].id as int]
            <= tt.arrival_at(r, t, j)
}

proof fn lemma_rides_bounded_lower(
    tt: &RaptorTimetable,
    origin: RaptorStopID,
    dep: Seconds,
    a: Seq<Seconds>,
    b: Seq<Seconds>,
    upto: int,
)
    requires
        tt.wf(),
        rides_bounded(tt, origin, dep, a, upto),
        a.len() == tt.stops@.len(),
        b.len() == a.len(),
        forall|x: int| 0 <= x < b.len() ==> #[trigger] b[x] <= a[x],
    ensures
        rides_bounded(tt, origin, dep, b, upto),
{
    assert forall|r: int, t: int, i: int, j: int, k: int|
        #[trigger] direct_ride(tt, origin, dep, r, t, i, j, k) && r < upto && no_overtaking(tt, r)
            && tt.arrival_at(r, t, j) < INFINITY implies b[tt.routes@[r].stops@[j].id as int]
            <= tt.arrival_at(r, t, j) by {
        assert(tt.routes@[r].stops@[j].id < tt.stops@.len());
    }
}

/// Scanning route `r` from the queue's position, after the previous round reached the
/// origin at `dep`, bounds every direct ride on `r`.
proof fn lemma_route_step(
    tt: &RaptorTimetable,
    origin: RaptorStopID,
    dep: Seconds,
    queue: Seq<Option<usize>>,
    tau_prev: Seq<Seconds>,
    before: Seq<Seconds>,
    after: Seq<Seconds>,
    r: int,
)
    requires
        tt.wf(),
        dep < INFINITY,
        queue.len() == tt.routes@.len(),
        0 <= r < queue.len(),
        origin.id < tt.stops@.len(),
        tau_prev.len() == tt.stops@.len(),
        tau_prev[origin.id as int] == dep,
        forall|k: int|
            0 <= k < tt.routes_serving_stops@[origin.id as int]@.len() ==> queued(
                queue,
                #[trigger] tt.routes_serving_stops@[origin.id as int]@[k],
            ),
        rides_bounded(tt, origin, dep, before, r),
        before.len() == tt.stops@.len(),
        after.len() == before.len(),
        forall|x: int| 0 <= x < after.len() ==> #[trigger] after[x] <= before[x],
        queue[r] matches Some(q) ==> (no_overtaking(tt, r) ==> forall|t: int, i: int, j: int|
            0 <= t < tt.routes@[r].trips@.len() && q <= i < j < tt.routes@[r].stops@.len()
                && #[trigger] boardable(tt, tau_prev, r, t, i) ==> after[tt.routes@[r].stops@[j].id as int]
                <= #[trigger] tt.arrival_at(r, t, j)),
    ensures
        rides_bounded(tt, origin, dep, after, r + 1),
{
    lemma_rides_bounded_lower(tt, origin, dep, before, after, r);
    assert forall|r2: int, t: int, i: int, j: int, k: int|
        #[trigger] direct_ride(tt, origin, dep, r2, t, i, j, k) && r2 < r + 1 && no_overtaking(tt, r2)
            && tt.arrival_at(r2, t, j) < INFINITY implies after[tt.routes@[r2].stops@[j].id as int]
            <= tt.arrival_at(r2, t, j) by {
        if r2 == r {
            let e = tt.routes_serving_stops@[origin.id as int]@[k];
            assert(queued(queue, e));
            assert(boardable(tt, tau_prev, r, t, i));
        }
    }
}

/// One update of a stop's times followed by marking it keeps every improved stop
/// marked with its best time, and every marked stop listed.
proof fn lemma_marking_keeps(pre: RaptorHandler, post: RaptorHandler, d: RaptorStopID, best0: Seq<Seconds>)
    requires
        pre.inv(),
        post.inv(),
        d.id < pre.num_stops,
        pre.improved_marked(best0),
        pre.flags_listed(),
        exists|c: Seconds| #[trigger] post.tau_current@ == pre.tau_current@.update(d.id as int, c),
        post.tau_current@.len() == pre.tau_current@.len(),
        post.tau_best@.len() == pre.tau_best@.len(),
        forall|x: int| 0 <= x < post.tau_best@.len() && x != d.id ==> #[trigger] post.tau_best@[x] == pre.tau_best@[x],
        forall|x: int| 0 <= x < post.tau_current@.len() && x != d.id ==> #[trigger] post.tau_current@[x] == pre.tau_current@[x],
        post.tau_best@[d.id as int] == post.tau_current@[d.id as int] || (post.tau_best@[d.id as int]
            == pre.tau_best@[d.id as int] && pre.tau_best@[d.id as int] <= post.tau_current@[d.id as int]
            && post.tau_current@[d.id as int] < pre.tau_current@[d.id as int]),
        post.marked_current@ == pre.marked_current@.update(d.id as int, true),
        (post.marked_stops_current@ == pre.marked_stops_current@ && pre.marked_current@[d.id as int])
            || post.marked_stops_current@ == pre.marked_stops_current@.push(d),
    ensures
        post.improved_marked(best0),
        post.flags_listed(),
{
    broadcast use vstd::seq_lib::lemma_seq_contains_after_push;
    assert forall|x: int|
        0 <= x < post.tau_best@.len() && post.tau_best@[x] < best0[x] implies post.tau_current@[x]
            == post.tau_best@[x] && post.marked_current@[x] by {
        if x != d.id {
            assert(pre.tau_best@[x] < best0[x]);
        } else if post.tau_best@[x] != post.tau_current@[x] {
            assert(pre.tau_best@[x] < best0[x]);
            assert(pre.tau_current@[x] == pre.tau_best@[x]);
        }
    }
    assert forall|x: int| 0 <= x < post.marked_current@.len() && post.marked_current@[x] implies post.marked_stops_current@.contains(
        RaptorStopID { id: x as usize },
    ) by {
        if x != d.id {
            assert(pre.marked_current@[x]);
            assert(pre.marked_stops_current@.contains(RaptorStopID { id: x as usize }));
        } else {
            assert(RaptorStopID { id: x as usize } == d);
            if post.marked_stops_current@ == pre.marked_stops_current@ && pre.marked_current@[d.id as int] {
                assert(pre.marked_stops_current@.contains(RaptorStopID { id: x as usize }));
            }
        }
    }
}

impl RaptorHandler {
    /// The working tables match the timetable's stops.
    pub closed spec fn inv(&self) -> bool {
        &&& self.num_stops == self.timetable.stops@.len()
        &&& self.tau_prev@.len() == self.num_stops
        &&& self.tau_current@.len() == self.num_stops
        &&& self.tau_best@.len() == self.num_stops
        &&& self.marked_prev@.len() == self.num_stops
        &&& self.marked_current@.len() == self.num_stops
        &&& forall|i: int|
            0 <= i < self.marked_stops_prev@.len() ==> (#[trigger] self.marked_stops_prev@[i]).id
                < self.num_stops
        &&& forall|i: int|
            0 <= i < self.marked_stops_current@.len() ==> (#[trigger] self.marked_stops_current@[i]).id
                < self.num_stops
        &&& forall|x: int| 0 <= x < self.num_stops ==> #[trigger] self.tau_best@[x] <= self.tau_current@[x]
    }

    /// No stop has been reached or marked yet: the state `new` creates.
    pub closed spec fn is_fresh(&self) -> bool {
        &&& forall|x: int| 0 <= x < self.tau_prev@.len() ==> #[trigger] self.tau_prev@[x] == INFINITY
        &&& forall|x: int|
            0 <= x < self.tau_current@.len() ==> #[trigger] self.tau_current@[x] == INFINITY
        &&& forall|x: int| 0 <= x < self.tau_best@.len() ==> #[trigger] self.tau_best@[x] == INFINITY
        &&& self.marked_stops_prev@.len() == 0
        &&& self.marked_stops_current@.len() == 0
    }

    /// The timetable the handler searches.
    pub closed spec fn table(&self) -> RaptorTimetable {
        self.timetable
    }

    /// The earliest arrival at `stop` that the handler holds.
    pub closed spec fn earliest_arrival_at(&self, stop: RaptorStopID) -> Seconds {
        self.tau_best@[stop.id as int]
    }

    spec fn legs_shaped(&self, rows: nat) -> bool {
        &&& self.parent_leg@.len() == rows
        &&& forall|k: int| 0 <= k < rows ==> (#[trigger] self.parent_leg@[k])@.len() == self.num_stops
    }

    spec fn best_not_above(&self, before: Seq<Seconds>) -> bool {
        forall|x: int|
            0 <= x < self.tau_best@.len() ==> #[trigger] self.tau_best@[x] <= before[x]
    }

    /// Each stop whose best time fell below `best0` holds that time as this round's and
    /// is flagged as marked this round.
    spec fn improved_marked(&self, best0: Seq<Seconds>) -> bool {
        forall|x: int|
            #![trigger self.tau_best@[x]]
            0 <= x < self.tau_best@.len() && self.tau_best@[x] < best0[x] ==> self.tau_current@[x]
                == self.tau_best@[x] && self.marked_current@[x]
    }

    /// Every stop flagged as marked this round is in this round's list.
    spec fn flags_listed(&self) -> bool {
        forall|x: int|
            #![trigger self.marked_current@[x]]
            0 <= x < self.marked_current@.len() && self.marked_current@[x]
                ==> self.marked_stops_current@.contains(RaptorStopID { id: x as usize })
    }

    spec fn sound(&self, w: Witness, origin: RaptorStopID, dep: Seconds, round: nat) -> bool {
        &&& witnessed(&self.timetable, origin, dep, self.tau_prev@, w.prev, (round - 1) as nat)
        &&& witnessed(&self.timetable, origin, dep, self.tau_current@, w.current, round)
        &&& witnessed(&self.timetable, origin, dep, self.tau_best@, w.best, round)
    }

    /// Sets up a handler for a timetable; no stop is reached yet.
    pub fn new(timetable: RaptorTimetable) -> (res: Self)
        ensures
            res.inv(),
            res.is_fresh(),
            res.table() == timetable,
    {
        RaptorHandler::initialize(timetable)
    }

    /// The timetable the handler searches.
    pub fn timetable(&self) -> (res: &RaptorTimetable)
        ensures
            *res == self.table(),
    {
        &self.timetable
    }

    /// Forgets every earlier query: no stop is reached or marked any more, so the next
    /// query starts as on a new handler.
    pub fn reset(&mut self)
        requires
            old(self).inv(),
        ensures
            final(self).inv(),
            final(self).is_fresh(),
            final(self).table() == old(self).table(),
    {
        let n = self.num_stops;
        self.tau_prev = filled_times(n, INFINITY);
        self.tau_current = filled_times(n, INFINITY);
        self.tau_best = filled_times(n, INFINITY);
        self.marked_prev = filled_flags(n, false);
        self.marked_current = filled_flags(n, false);
        self.marked_stops_prev = Vec::new();
        self.marked_stops_current = Vec::new();
        self.parent_leg = Vec::new();
    }

    fn initialize(timetable: RaptorTimetable) -> (res: Self)
        ensures
            res.inv(),
            res.is_fresh(),
            res.table() == timetable,
    {
        let num_stops = timetable.stops.len();
        let tau_prev = filled_times(num_stops, INFINITY);
        let tau_current = filled_times(num_stops, INFINITY);
        let tau_best = filled_times(num_stops, INFINITY);
        let marked_prev = filled_flags(num_stops, false);
        let marked_current = filled_flags(num_stops, false);
        let parent_leg: Vec<Vec<Option<Leg>>> = Vec::new();
        Self {
            timetable,
            tau_prev,
            tau_current,
            tau_best,
            marked_prev,
            marked_current,
            marked_stops_prev: Vec::new(),
            marked_stops_current: Vec::new(),
            parent_leg,
            num_stops,
        }
    }

    /// Round zero: the origin is reached at the departure time, and every stop one walk
    /// away at the departure plus the quickest walk to it. A walk never makes a stop later
    /// than it already is, so the origin keeps the departure time.
    #[verifier::rlimit(100)]
    #[verifier::spinoff_prover]
    fn start_query(&mut self, origin: RaptorStopID, departure_time: Seconds, journeys: &mut Journeys) -> (w: Ghost<Witness>)
        requires
            old(self).inv(),
            old(self).timetable.wf(),
            old(self).timetable.times_fit(departure_time),
            origin.id < old(self).num_stops,
            old(self).is_fresh(),
            old(self).legs_shaped(old(self).parent_leg@.len()),
            old(self).parent_leg@.len() >= 1,
        ensures
            final(journeys).sized(old(self).num_stops as nat),
            final(journeys).witness() == w@,
            final(self).inv(),
            final(self).timetable == old(self).timetable,
            final(self).legs_shaped(old(self).parent_leg@.len()),
            final(self).tau_prev@ == old(self).tau_prev@,
            forall|k: int|
                0 <= k < final(self).timetable.transfers@[origin.id as int]@.len()
                    ==> final(self).tau_best@[(#[trigger] final(self).timetable.transfers@[origin.id as int]@[k]).to_stop.id as int]
                    <= departure_time + final(self).timetable.transfers@[origin.id as int]@[k].walk_time,
            final(self).tau_best@[origin.id as int] == departure_time,
            final(self).tau_current@[origin.id as int] == departure_time,
            final(self).marked_stops_current@.contains(origin),
            final(self).sound(w@, origin, departure_time, 0),
            forall|x: int|
                #![trigger final(self).tau_best@[x]]
                0 <= x < final(self).tau_best@.len() && final(self).tau_best@[x] != INFINITY
                    ==> final(self).tau_current@[x] == final(self).tau_best@[x]
                    && final(self).marked_stops_current@.contains(RaptorStopID { id: x as usize }),
            forall|x: int|
                #![trigger final(self).tau_best@[x]]
                0 <= x < final(self).tau_best@.len() && final(self).tau_best@[x] != INFINITY ==> x == origin.id
                    || exists|k: int|
                    0 <= k < final(self).timetable.transfers@[origin.id as int]@.len()
                        && (#[trigger] final(self).timetable.transfers@[origin.id as int]@[k]).to_stop.id == x
                        && final(self).tau_best@[x] == departure_time
                        + final(self).timetable.transfers@[origin.id as int]@[k].walk_time,
    {
        let ghost tt = self.timetable;
        let ghost n = self.num_stops as int;
        self.marked_current.set(origin.id, true);
        let ghost om = self.marked_stops_current@.len() as int;
        self.marked_stops_current.push(origin);
        self.tau_current.set(origin.id, departure_time);
        self.tau_best.set(origin.id, departure_time);
        let ghost mut wcur: Seq<Seq<Leg>> = Seq::new(n as nat, |x: int| Seq::<Leg>::empty());
        let ghost wprev: Seq<Seq<Leg>> = Seq::new(n as nat, |x: int| Seq::<Leg>::empty());
        journeys.prev = empty_rows(self.num_stops);
        journeys.current = empty_rows(self.num_stops);
        proof {
            assert(feasible_journey(&tt, origin, departure_time, Seq::<Leg>::empty(), RaptorStopID { id: origin.id }, departure_time));
            assert forall|x: int|
                0 <= x < self.tau_current@.len() && self.tau_current@[x] != INFINITY implies #[trigger] journey_ok(
                &tt,
                origin,
                departure_time,
                wcur[x],
                x,
                self.tau_current@[x],
                0,
            ) by {
                assert(x == origin.id);
            }
            assert forall|x: int| 0 <= x < n && self.tau_best@[x] != INFINITY implies self.marked_stops_current@.contains(
                RaptorStopID { id: x as usize },
            ) by {
                assert(x == origin.id);
                assert(self.marked_stops_current@[om] == origin);
                assert(RaptorStopID { id: x as usize } == origin);
            }
        }
        let mut k: usize = 0;
        while k < self.timetable.transfers[origin.id].len()
            invariant
                self.inv(),
                self.timetable == tt,
                tt.wf(),
                tt.times_fit(departure_time),
                origin.id < n,
                n == self.num_stops,
                k <= tt.transfers@[origin.id as int]@.len(),
                self.legs_shaped(old(self).parent_leg@.len()),
                old(self).parent_leg@.len() >= 1,
                self.tau_prev@ == old(self).tau_prev@,
                old(self).is_fresh(),
                forall|j: int|
                    0 <= j < k ==> self.tau_best@[(#[trigger] tt.transfers@[origin.id as int]@[j]).to_stop.id as int]
                        <= departure_time + tt.transfers@[origin.id as int]@[j].walk_time,
                self.tau_best@[origin.id as int] == departure_time,
                self.tau_current@[origin.id as int] == departure_time,
                0 <= om < self.marked_stops_current@.len(),
                self.marked_stops_current@[om] == origin,
                wcur.len() == n,
                journeys.prev@.len() == n,
                journeys.current@.len() == n,
                rows_view(journeys.prev@) == wprev,
                rows_view(journeys.current@) == wcur,
                forall|x: int|
                    0 <= x < n && self.tau_current@[x] != INFINITY ==> #[trigger] journey_ok(
                        &tt,
                        origin,
                        departure_time,
                        wcur[x],
                        x,
                        self.tau_current@[x],
                        0,
                    ),
                forall|x: int| 0 <= x < n ==> #[trigger] self.tau_best@[x] == self.tau_current@[x],
                forall|x: int|
                    #![trigger self.tau_best@[x]]
                    0 <= x < n && self.tau_best@[x] != INFINITY
                        ==> self.marked_stops_current@.contains(RaptorStopID { id: x as usize }),
                forall|x: int|
                    #![trigger self.tau_best@[x]]
                    0 <= x < n && self.tau_best@[x] != INFINITY ==> x == origin.id || exists|kk: int|
                        0 <= kk < k && (#[trigger] tt.transfers@[origin.id as int]@[kk]).to_stop.id == x
                            && self.tau_best@[x] == departure_time + tt.transfers@[origin.id as int]@[kk].walk_time,
            decreases tt.transfers@[origin.id as int]@.len() - k,
        {
            let transfer = self.timetable.transfers[origin.id][k];
            let transfer_dest_id = transfer.to_stop;
            let arrival_time = departure_time + transfer.walk_time;
            let ghost bs0 = self.tau_best@;
            if arrival_time < self.tau_best[transfer_dest_id.id] {
                self.tau_current.set(transfer_dest_id.id, arrival_time);
                self.tau_best.set(transfer_dest_id.id, arrival_time);
                let leg = Leg {
                    origin_stop: origin,
                    destination_stop: transfer_dest_id,
                    leg_start_time: departure_time,
                    leg_end_time: arrival_time,
                    trip_id: None,
                };
                self.parent_leg[0].set(transfer_dest_id.id, Some(leg));
                let mut walk_legs: Vec<Leg> = Vec::new();
                walk_legs.push(leg);
                proof {
                    assert(walk_legs@ =~= Seq::<Leg>::empty().push(leg));
                    lemma_rows_set(journeys.current@, transfer_dest_id.id as int, walk_legs);
                }
                journeys.current.set(transfer_dest_id.id, walk_legs);
                let ghost ms = self.marked_stops_current@;
                let ghost bs = self.tau_best@;
                self.marked_stops_current.push(transfer_dest_id);
                self.marked_current.set(transfer_dest_id.id, true);
                assert(self.marked_stops_current@[om] == ms[om]);
                proof {
                    broadcast use vstd::seq_lib::lemma_seq_contains_after_push;

                    assert forall|x: int| 0 <= x < n && self.tau_best@[x] != INFINITY implies self.marked_stops_current@.contains(
                        RaptorStopID { id: x as usize },
                    ) by {
                        if x == transfer_dest_id.id {
                            assert(RaptorStopID { id: x as usize } == transfer_dest_id);
                        } else {
                            assert(ms.contains(RaptorStopID { id: x as usize }));
                        }
                    }
                    assert forall|x: int| 0 <= x < n && self.tau_best@[x] != INFINITY implies x == origin.id || exists|kk: int|
                        0 <= kk < k + 1 && (#[trigger] tt.transfers@[origin.id as int]@[kk]).to_stop.id == x
                            && self.tau_best@[x] == departure_time + tt.transfers@[origin.id as int]@[kk].walk_time by {
                        if x == transfer_dest_id.id {
                            assert(tt.transfers@[origin.id as int]@[k as int].to_stop.id == x);
                        } else if x != origin.id {
                            assert(bs0[x] != INFINITY);
                        }
                    }
                    let walk = Seq::<Leg>::empty().push(leg);
                    assert(leg_in_timetable(&tt, leg)) by {
                        assert(transfer == tt.transfers@[origin.id as int]@[k as int]);
                        assert(leg.trip_id is None);
                        assert(0 <= leg.origin_stop.id < tt.transfers@.len());
                        assert(tt.transfers@[leg.origin_stop.id as int]@[k as int].to_stop == leg.destination_stop
                            && leg.leg_end_time == leg.leg_start_time
                            + tt.transfers@[leg.origin_stop.id as int]@[k as int].walk_time);
                    }
                    lemma_extend_journey(&tt, origin, departure_time, Seq::<Leg>::empty(), origin, departure_time, leg);
                    lemma_count_rides_push(Seq::<Leg>::empty(), leg);
                    wcur = wcur.update(transfer_dest_id.id as int, walk);
                }
            }
            proof {
                assert(self.tau_best@[transfer_dest_id.id as int] <= arrival_time);
                assert(tt.transfers@[origin.id as int]@[k as int].to_stop == transfer_dest_id);
                assert forall|j: int|
                    0 <= j < k + 1 implies self.tau_best@[(#[trigger] tt.transfers@[origin.id as int]@[j]).to_stop.id as int]
                    <= departure_time + tt.transfers@[origin.id as int]@[j].walk_time by {
                    if j < k {
                        assert(bs0[tt.transfers@[origin.id as int]@[j].to_stop.id as int]
                            <= departure_time + tt.transfers@[origin.id as int]@[j].walk_time);
                    }
                }
            }
            k = k + 1;
        }
        journeys.best = copy_rows(&journeys.current);
        let ghost w = Witness { prev: wprev, current: wcur, best: wcur };
        proof {
            assert forall|x: int|
                0 <= x < self.tau_prev@.len() && self.tau_prev@[x] != INFINITY implies #[trigger] journey_ok(
                &tt,
                origin,
                departure_time,
                w.prev[x],
                x,
                self.tau_prev@[x],
                0,
            ) by {
                assert(old(self).tau_prev@[x] == INFINITY);
            }
            assert forall|x: int|
                0 <= x < self.tau_best@.len() && self.tau_best@[x] != INFINITY implies #[trigger] journey_ok(
                &tt,
                origin,
                departure_time,
                w.best[x],
                x,
                self.tau_best@[x],
                0,
            ) by {
                assert(self.tau_best@[x] == self.tau_current@[x]);
            }
        }
        Ghost(w)
    }

    /// Moves this round's tables into the previous round's and clears them; refuses to
    /// go past `max_boardings`.
    fn increment_round(&mut self, starting_round: usize, max_boardings: usize) -> (res: Option<usize>)
        requires
            old(self).inv(),
        ensures
            final(self).inv(),
            final(self).timetable == old(self).timetable,
            final(self).parent_leg == old(self).parent_leg,
            final(self).tau_best == old(self).tau_best,
            starting_round >= max_boardings ==> res is None && *final(self) == *old(self),
            starting_round < max_boardings ==> {
                &&& res == Some((starting_round + 1) as usize)
                &&& final(self).tau_prev@ == old(self).tau_current@
                &&& final(self).tau_current@ == Seq::new(old(self).num_stops as nat, |i: int| INFINITY)
                &&& final(self).marked_stops_prev@ == old(self).marked_stops_current@
                &&& final(self).marked_stops_current@.len() == 0
                &&& final(self).flags_listed()
            },
    {
        if starting_round >= max_boardings {
            return None;
        }
        let num_stops = self.num_stops;
        self.tau_prev = copy_times(&self.tau_current);
        self.tau_current = filled_times(num_stops, INFINITY);
        self.marked_prev = copy_flags(&self.marked_current);
        self.marked_current = filled_flags(num_stops, false);
        self.marked_stops_prev = copy_stops(&self.marked_stops_current);
        self.marked_stops_current = Vec::new();
        Some(starting_round + 1)
    }

    /// The answer from the tables as they stand.
    fn best_so_far(
        &self,
        origin: RaptorStopID,
        destination: RaptorStopID,
        departure_time: Seconds,
        journeys: &Journeys,
    ) -> (res: Result<RaptorQueryResult, RaptorError>)
        requires
            self.inv(),
            destination.id < self.num_stops,
            journeys.sized(self.num_stops as nat),
        ensures
            match res {
                Ok(r) => {
                    &&& r.earliest_arrival_time == self.tau_best@[destination.id as int]
                    &&& r.earliest_arrival_time != INFINITY
                    &&& r.earliest_arrival_time >= departure_time
                    &&& r.travel_time == r.earliest_arrival_time - departure_time
                    &&& r.diary matches Some(j) && j.origin == origin && j.destination == destination
                        && j.departure_time == departure_time && j.legs@ == journeys.witness().best[destination.id as int]
                },
                Err(e) => {
                    ||| e == RaptorError::DestinationUnreachable { origin, destination, departure_time }
                        && self.tau_best@[destination.id as int] == INFINITY
                    ||| e matches RaptorError::InvalidGtfs(m) && m@ == arrives_before_departure_message()
                        && self.tau_best@[destination.id as int] < departure_time
                },
            },
    {
        let earliest_arrival_time = self.tau_best[destination.id];
        if earliest_arrival_time == INFINITY {
            return Err(RaptorError::DestinationUnreachable { origin, destination, departure_time });
        }
        if earliest_arrival_time < departure_time {
            return Err(RaptorError::InvalidGtfs(String::from_str("A journey reaches the destination before the departure time")));
        }
        let travel_time = earliest_arrival_time - departure_time;
        let legs = copy_legs(&journeys.best[destination.id]);
        let diary = Journey::new(origin, destination, departure_time, legs);
        Ok(RaptorQueryResult { earliest_arrival_time, travel_time, diary: Some(diary) })
    }

    /// The earliest position along each route at which a stop marked in the previous
    /// round lies.
    fn build_route_queue(&self) -> (res: Vec<Option<usize>>)
        requires
            self.inv(),
            self.timetable.wf(),
        ensures
            res@.len() == self.timetable.routes@.len(),
            forall|r: int|
                0 <= r < res@.len() ==> (#[trigger] res@[r] matches Some(q) ==> q
                    < self.timetable.routes@[r].stops@.len()),
            forall|m: int, k: int|
                0 <= m < self.marked_stops_prev@.len() && 0 <= k
                    < self.timetable.routes_serving_stops@[self.marked_stops_prev@[m].id as int]@.len()
                    ==> queued(
                    res@,
                    #[trigger] self.timetable.routes_serving_stops@[(#[trigger] self.marked_stops_prev@[m]).id as int]@[k],
                ),
    {
        let ghost tt = self.timetable;
        let mut route_queue: Vec<Option<usize>> = empty_slots(self.timetable.routes.len());
        let mut i: usize = 0;
        while i < self.marked_stops_prev.len()
            invariant
                self.inv(),
                tt == self.timetable,
                tt.wf(),
                i <= self.marked_stops_prev@.len(),
                route_queue@.len() == tt.routes@.len(),
                forall|r: int|
                    0 <= r < route_queue@.len() ==> (#[trigger] route_queue@[r] matches Some(q)
                        ==> q < tt.routes@[r].stops@.len()),
                forall|m: int, k: int|
                    0 <= m < i && 0 <= k < tt.routes_serving_stops@[self.marked_stops_prev@[m].id as int]@.len()
                        ==> queued(
                        route_queue@,
                        #[trigger] tt.routes_serving_stops@[(#[trigger] self.marked_stops_prev@[m]).id as int]@[k],
                    ),
            decreases self.marked_stops_prev@.len() - i,
        {
            let stop_id = self.marked_stops_prev[i];
            let mut j: usize = 0;
            while j < self.timetable.routes_serving_stops[stop_id.id].len()
                invariant
                    self.inv(),
                    tt == self.timetable,
                    tt.wf(),
                    stop_id.id < self.num_stops,
                    i < self.marked_stops_prev@.len(),
                    stop_id == self.marked_stops_prev@[i as int],
                    j <= tt.routes_serving_stops@[stop_id.id as int]@.len(),
                    route_queue@.len() == tt.routes@.len(),
                    forall|r: int|
                        0 <= r < route_queue@.len() ==> (#[trigger] route_queue@[r] matches Some(q)
                            ==> q < tt.routes@[r].stops@.len()),
                    forall|m: int, k: int|
                        0 <= m < i && 0 <= k < tt.routes_serving_stops@[self.marked_stops_prev@[m].id as int]@.len()
                            ==> queued(
                            route_queue@,
                            #[trigger] tt.routes_serving_stops@[(#[trigger] self.marked_stops_prev@[m]).id as int]@[k],
                        ),
                    forall|k: int| 0 <= k < j ==> queued(route_queue@, #[trigger] tt.routes_serving_stops@[stop_id.id as int]@[k]),
                decreases tt.routes_serving_stops@[stop_id.id as int]@.len() - j,
            {
                let route_serving_stop = self.timetable.routes_serving_stops[stop_id.id][j];
                let route_id = route_serving_stop.route_id;
                let stop_sequence = route_serving_stop.stop_sequence;
                proof {
                    assert(tt.routes_serving_stops@[stop_id.id as int]@[j as int] == route_serving_stop);
                }
                let ghost before = route_queue@;
                match route_queue[route_id.id] {
                    Some(existing_sequence) if existing_sequence <= stop_sequence => {},
                    _ => {
                        route_queue.set(route_id.id, Some(stop_sequence));
                    },
                }
                proof {
                    assert forall|e: RaptorRouteServingStop| queued(before, e) implies queued(route_queue@, e) by {}
                }
                j = j + 1;
            }
            i = i + 1;
        }
        route_queue
    }

    /// Scans one route from `start_position`: stops are improved with the trip boarded
    /// so far, and an earlier trip is boarded where the previous round reached a stop in
    /// time for it.
    fn scan_route(
        &mut self,
        route_idx: usize,
        start_position: usize,
        query_round: usize,
        Ghost(origin): Ghost<RaptorStopID>,
        Ghost(dep): Ghost<Seconds>,
        Ghost(w0): Ghost<Witness>,
        Ghost(best0): Ghost<Seq<Seconds>>,
        journeys: &mut Journeys,
    ) -> (w: Ghost<Witness>)
        requires
            old(journeys).sized(old(self).num_stops as nat),
            old(journeys).witness() == w0,
            old(self).improved_marked(best0),
            old(self).flags_listed(),
            old(self).inv(),
            old(self).timetable.wf(),
            route_idx < old(self).timetable.routes@.len(),
            start_position < old(self).timetable.routes@[route_idx as int].stops@.len(),
            1 <= query_round < old(self).parent_leg@.len(),
            old(self).legs_shaped(old(self).parent_leg@.len()),
            forall|i: int|
                0 <= i < old(self).marked_stops_current@.len() ==> below_some_arrival(
                    &old(self).timetable,
                    old(self).tau_current@[(#[trigger] old(self).marked_stops_current@[i]).id as int],
                ),
            old(self).sound(w0, origin, dep, query_round as nat),
        ensures
            final(journeys).sized(old(self).num_stops as nat),
            final(journeys).witness() == w@,
            final(self).inv(),
            final(self).timetable == old(self).timetable,
            final(self).legs_shaped(old(self).parent_leg@.len()),
            final(self).tau_prev == old(self).tau_prev,
            final(self).marked_stops_prev == old(self).marked_stops_prev,
            final(self).best_not_above(old(self).tau_best@),
            forall|i: int|
                0 <= i < final(self).marked_stops_current@.len() ==> below_some_arrival(
                    &final(self).timetable,
                    final(self).tau_current@[(#[trigger] final(self).marked_stops_current@[i]).id as int],
                ),
            w@.prev == w0.prev,
            final(self).sound(w@, origin, dep, query_round as nat),
            final(self).improved_marked(best0),
            final(self).flags_listed(),
            no_overtaking(&old(self).timetable, route_idx as int) ==> forall|t: int, i: int, j: int|
                0 <= t < old(self).timetable.routes@[route_idx as int].trips@.len() && start_position <= i
                    < j < old(self).timetable.routes@[route_idx as int].stops@.len() && #[trigger] boardable(
                    &old(self).timetable,
                    old(self).tau_prev@,
                    route_idx as int,
                    t,
                    i,
                ) ==> final(self).tau_best@[old(self).timetable.routes@[route_idx as int].stops@[j].id as int]
                    <= #[trigger] old(self).timetable.arrival_at(route_idx as int, t, j),
    {
        let ghost tt = self.timetable;
        let ghost n = self.num_stops as int;
        let ghost rows = self.parent_leg@.len();
        let ghost mut w = w0;
        let ghost r = route_idx as int;
        let route_id = TimetableRouteID::new(route_idx);
        let mut current_trip_idx: Option<usize> = None;
        let mut boarded_at_stop_sequence: Option<usize> = None;
        let mut stop_sequence = start_position;
        while stop_sequence < self.timetable.routes[route_idx].stops.len()
            invariant
                self.inv(),
                self.timetable == tt,
                n == self.num_stops,
                tt.wf(),
                route_idx < tt.routes@.len(),
                route_id.id == route_idx,
                start_position <= stop_sequence <= tt.routes@[route_idx as int].stops@.len(),
                1 <= query_round < rows,
                rows == old(self).parent_leg@.len(),
                self.legs_shaped(rows),
                self.tau_prev == old(self).tau_prev,
                self.marked_stops_prev == old(self).marked_stops_prev,
                self.best_not_above(old(self).tau_best@),
                forall|i: int|
                    0 <= i < self.marked_stops_current@.len() ==> below_some_arrival(
                        &tt,
                        self.tau_current@[(#[trigger] self.marked_stops_current@[i]).id as int],
                    ),
                current_trip_idx is Some <==> boarded_at_stop_sequence is Some,
                current_trip_idx matches Some(t) ==> t < tt.routes@[route_idx as int].trips@.len(),
                boarded_at_stop_sequence matches Some(b) ==> {
                    &&& b < stop_sequence
                    &&& self.tau_prev@[tt.routes@[route_idx as int].stops@[b as int].id as int] != INFINITY
                    &&& current_trip_idx matches Some(t) && tt.departure_at(route_idx as int, t as int, b as int)
                        >= self.tau_prev@[tt.routes@[route_idx as int].stops@[b as int].id as int]
                },
                w.prev == w0.prev,
                journeys.sized(n as nat),
                journeys.witness() == w,
                self.sound(w, origin, dep, query_round as nat),
                self.improved_marked(best0),
                self.flags_listed(),
                r == route_idx as int,
                forall|t: int, i: int|
                    0 <= t < tt.routes@[r].trips@.len() && start_position <= i < stop_sequence
                        && #[trigger] boardable(&tt, self.tau_prev@, r, t, i) ==> (current_trip_idx matches Some(c)
                        && c <= t),
                no_overtaking(&tt, r) ==> forall|t: int, i: int, j: int|
                    0 <= t < tt.routes@[r].trips@.len() && start_position <= i < j < stop_sequence
                        && #[trigger] boardable(&tt, self.tau_prev@, r, t, i) ==> self.tau_best@[tt.routes@[r].stops@[j].id as int]
                        <= #[trigger] tt.arrival_at(r, t, j),
            decreases tt.routes@[route_idx as int].stops@.len() - stop_sequence,
        {
            let ghost best_before = self.tau_best@;
            let ghost cur_before = current_trip_idx;
            let stop_id = self.timetable.routes[route_idx].stops[stop_sequence];
            proof {
                assert(stop_id == tt.routes@[route_idx as int].stops@[stop_sequence as int]);
                assert(stop_id.id < n);
            }
            if let Some(trip_idx) = current_trip_idx {
                let arrival_time = self.timetable.get_arrival_time(route_id, trip_idx, stop_sequence);
                if arrival_time < self.tau_best[stop_id.id] {
                    let ghost pre = *self;
                    let ghost b = boarded_at_stop_sequence->0;
                    let ghost bstop = tt.routes@[route_idx as int].stops@[b as int];
                    proof {
                        assert(bstop.id < n);
                    }
                    self.tau_current.set(stop_id.id, arrival_time);
                    self.tau_best.set(stop_id.id, arrival_time);
                    if let Some(board_seq) = boarded_at_stop_sequence {
                        let leg = Leg {
                            origin_stop: self.timetable.routes[route_idx].stops[board_seq],
                            destination_stop: stop_id,
                            leg_start_time: self.timetable.get_departure_time(route_id, trip_idx, board_seq),
                            leg_end_time: arrival_time,
                            trip_id: Some(self.timetable.routes[route_idx].trips[trip_idx].trip_id),
                        };
                        self.parent_leg[query_round].set(stop_id.id, Some(leg));
                        let board_stop = self.timetable.routes[route_idx].stops[board_seq];
                        let mut ride_legs = copy_legs(&journeys.prev[board_stop.id]);
                        ride_legs.push(leg);
                        let best_legs = copy_legs(&ride_legs);
                        proof {
                            assert(board_stop == bstop);
                            assert(journeys.witness().prev == rows_view(journeys.prev@));
                            assert(ride_legs@ == w.prev[bstop.id as int].push(leg));
                            lemma_rows_set(journeys.current@, stop_id.id as int, ride_legs);
                            lemma_rows_set(journeys.best@, stop_id.id as int, best_legs);
                        }
                        journeys.current.set(stop_id.id, ride_legs);
                        journeys.best.set(stop_id.id, best_legs);
                        proof {
                            let pj = w.prev[bstop.id as int];
                            assert(journey_ok(&tt, origin, dep, pj, bstop.id as int, self.tau_prev@[bstop.id as int], (query_round - 1) as nat));
                            assert(RaptorStopID { id: bstop.id } == bstop);
                            assert(leg_in_timetable(&tt, leg)) by {
                                assert(tt.departure_at(route_idx as int, trip_idx as int, board_seq as int) == leg.leg_start_time);
                                assert(tt.arrival_at(route_idx as int, trip_idx as int, stop_sequence as int) == leg.leg_end_time);
                            }
                            lemma_extend_journey(&tt, origin, dep, pj, bstop, self.tau_prev@[bstop.id as int], leg);
                            lemma_count_rides_push(pj, leg);
                            let nj = pj.push(leg);
                            assert(RaptorStopID { id: stop_id.id } == stop_id);
                            assert(journey_ok(&tt, origin, dep, nj, stop_id.id as int, arrival_time, query_round as nat));
                            let old_w = w;
                            w = Witness {
                                prev: w.prev,
                                current: w.current.update(stop_id.id as int, nj),
                                best: w.best.update(stop_id.id as int, nj),
                            };
                            assert forall|x: int|
                                0 <= x < self.tau_current@.len() && self.tau_current@[x] != INFINITY implies #[trigger] journey_ok(
                                &tt,
                                origin,
                                dep,
                                w.current[x],
                                x,
                                self.tau_current@[x],
                                query_round as nat,
                            ) by {
                                if x != stop_id.id {
                                    assert(journey_ok(&tt, origin, dep, old_w.current[x], x, self.tau_current@[x], query_round as nat));
                                }
                            }
                            assert forall|x: int|
                                0 <= x < self.tau_best@.len() && self.tau_best@[x] != INFINITY implies #[trigger] journey_ok(
                                &tt,
                                origin,
                                dep,
                                w.best[x],
                                x,
                                self.tau_best@[x],
                                query_round as nat,
                            ) by {
                                if x != stop_id.id {
                                    assert(journey_ok(&tt, origin, dep, old_w.best[x], x, self.tau_best@[x], query_round as nat));
                                }
                            }
                        }
                    }
                    if !self.marked_current[stop_id.id] {
                        self.marked_current.set(stop_id.id, true);
                        self.marked_stops_current.push(stop_id);
                    }
                    proof {
                        assert(self.marked_current@ =~= pre.marked_current@.update(stop_id.id as int, true));
                        lemma_marking_keeps(pre, *self, stop_id, best0);
                        assert(tt.arrival_at(route_idx as int, trip_idx as int, stop_sequence as int) >= arrival_time);
                        assert(below_some_arrival(&tt, arrival_time));
                        assert forall|i: int|
                            0 <= i < self.marked_stops_current@.len() implies below_some_arrival(
                            &tt,
                            self.tau_current@[(#[trigger] self.marked_stops_current@[i]).id as int],
                        ) by {
                            if self.marked_stops_current@[i].id != stop_id.id {
                                if i < old(self).marked_stops_current@.len() {
                                }
                            }
                        }
                    }
                }
            }
            proof {
                assert forall|x: int| 0 <= x < self.tau_best@.len() implies #[trigger] self.tau_best@[x] <= best_before[x] by {}
                if let Some(c) = cur_before {
                    assert(self.tau_best@[stop_id.id as int] <= tt.arrival_at(r, c as int, stop_sequence as int));
                }
                if no_overtaking(&tt, r) {
                    assert forall|t: int, i: int, j: int|
                        0 <= t < tt.routes@[r].trips@.len() && start_position <= i < j < stop_sequence + 1
                            && #[trigger] boardable(&tt, self.tau_prev@, r, t, i) implies self.tau_best@[tt.routes@[r].stops@[j].id as int]
                            <= #[trigger] tt.arrival_at(r, t, j) by {
                        if j == stop_sequence {
                            let c = cur_before->0;
                            assert(c <= t);
                            assert(tt.arrival_at(r, c as int, j) <= tt.arrival_at(r, t, j));
                        } else {
                            assert(best_before[tt.routes@[r].stops@[j].id as int] <= tt.arrival_at(r, t, j));
                        }
                    }
                }
            }
            let ghost cur_mid = current_trip_idx;
            let prev_arrival_time = self.tau_prev[stop_id.id];
            if prev_arrival_time != INFINITY {
                if let Some(candidate_trip_idx) = self.timetable.earliest_trip(
                    route_id,
                    stop_sequence,
                    prev_arrival_time,
                ) {
                    match current_trip_idx {
                        Some(existing_trip_idx) if existing_trip_idx <= candidate_trip_idx => {},
                        _ => {
                            current_trip_idx = Some(candidate_trip_idx);
                            boarded_at_stop_sequence = Some(stop_sequence);
                        },
                    }
                }
            }
            proof {
                assert forall|t: int, i: int|
                    0 <= t < tt.routes@[r].trips@.len() && start_position <= i < stop_sequence + 1
                        && #[trigger] boardable(&tt, self.tau_prev@, r, t, i) implies (current_trip_idx matches Some(c)
                        && c <= t) by {
                    if i == stop_sequence {
                        assert(stop_id == tt.routes@[r].stops@[i]);
                        assert(prev_arrival_time == self.tau_prev@[stop_id.id as int]);
                        assert(tt.departure_at(r, t, i) >= prev_arrival_time);
                    } else {
                        assert(cur_mid matches Some(c) && c <= t);
                    }
                }
            }
            stop_sequence = stop_sequence + 1;
        }
        Ghost(w)
    }

    /// Walks from every stop improved by a ride this round to its transfer targets.
    fn relax_transfers(
        &mut self,
        query_round: usize,
        Ghost(origin): Ghost<RaptorStopID>,
        Ghost(dep): Ghost<Seconds>,
        Ghost(w0): Ghost<Witness>,
        Ghost(best0): Ghost<Seq<Seconds>>,
        journeys: &mut Journeys,
    ) -> (w: Ghost<Witness>)
        requires
            old(journeys).sized(old(self).num_stops as nat),
            old(journeys).witness() == w0,
            old(self).improved_marked(best0),
            old(self).flags_listed(),
            old(self).inv(),
            old(self).timetable.wf(),
            old(self).timetable.times_fit(dep),
            1 <= query_round < old(self).parent_leg@.len(),
            old(self).legs_shaped(old(self).parent_leg@.len()),
            forall|i: int|
                0 <= i < old(self).marked_stops_current@.len() ==> below_some_arrival(
                    &old(self).timetable,
                    old(self).tau_current@[(#[trigger] old(self).marked_stops_current@[i]).id as int],
                ),
            old(self).sound(w0, origin, dep, query_round as nat),
        ensures
            final(journeys).sized(old(self).num_stops as nat),
            final(journeys).witness() == w@,
            final(self).inv(),
            final(self).timetable == old(self).timetable,
            final(self).legs_shaped(old(self).parent_leg@.len()),
            final(self).tau_prev == old(self).tau_prev,
            final(self).best_not_above(old(self).tau_best@),
            final(self).marked_stops_current@.len() >= old(self).marked_stops_current@.len(),
            w@.prev == w0.prev,
            final(self).sound(w@, origin, dep, query_round as nat),
            final(self).improved_marked(best0),
            final(self).flags_listed(),
            final(self).marked_stops_prev == old(self).marked_stops_prev,
            walks_closed(&old(self).timetable) && all_walks_exhausted(&old(self).timetable, best0)
                && old(self).best_not_above(best0) && best0.len() == old(self).tau_best@.len()
                ==> all_walks_exhausted(&final(self).timetable, final(self).tau_best@),
    {
        let ghost tt = self.timetable;
        let ghost n = self.num_stops as int;
        let ghost rows = self.parent_leg@.len();
        let ghost mut w = w0;
        let ghost mut used: Seq<Seconds> = Seq::empty();
        let newly_marked_stops = copy_stops(&self.marked_stops_current);
        proof {
            assert(self.tau_best.len() == self.tau_best@.len());
            assert forall|x: int|
                0 <= x < self.tau_best@.len() && #[trigger] self.tau_best@[x] < best0[x] implies newly_marked_stops@.contains(
                RaptorStopID { id: x as usize },
            ) by {
                assert(self.marked_current@[x]);
            }
            lemma_progress_init(&tt, newly_marked_stops@, self.tau_best@, best0);
        }
        let mut i: usize = 0;
        while i < newly_marked_stops.len()
            invariant
                self.inv(),
                self.timetable == tt,
                n == self.num_stops,
                tt.wf(),
                tt.times_fit(dep),
                i <= newly_marked_stops@.len(),
                newly_marked_stops@ == old(self).marked_stops_current@,
                forall|j: int| 0 <= j < newly_marked_stops@.len() ==> (#[trigger] newly_marked_stops@[j]).id < n,
                1 <= query_round < rows,
                rows == old(self).parent_leg@.len(),
                self.legs_shaped(rows),
                self.tau_prev == old(self).tau_prev,
                self.best_not_above(old(self).tau_best@),
                self.marked_stops_current@.len() >= old(self).marked_stops_current@.len(),
                forall|j: int|
                    0 <= j < newly_marked_stops@.len() ==> below_some_arrival(
                        &tt,
                        self.tau_current@[(#[trigger] newly_marked_stops@[j]).id as int],
                    ),
                w.prev == w0.prev,
                journeys.sized(n as nat),
                journeys.witness() == w,
                self.sound(w, origin, dep, query_round as nat),
                self.improved_marked(best0),
                self.flags_listed(),
                self.marked_stops_prev == old(self).marked_stops_prev,
                used.len() == i,
                walks_progress(&tt, newly_marked_stops@, used, self.tau_best@, best0, i as int, 0),
            decreases newly_marked_stops@.len() - i,
        {
            let stop_id = newly_marked_stops[i];
            proof {
                assert(stop_id == old(self).marked_stops_current@[i as int]);
                lemma_progress_begin(&tt, newly_marked_stops@, used, self.tau_best@, best0, self.tau_current@, i as int);
                used = used.push(self.tau_current@[stop_id.id as int]);
            }
            let mut k: usize = 0;
            while k < self.timetable.transfers[stop_id.id].len()
                invariant
                    self.inv(),
                    self.timetable == tt,
                    n == self.num_stops,
                    tt.wf(),
                    tt.times_fit(dep),
                    stop_id.id < n,
                    i < newly_marked_stops@.len(),
                    stop_id == newly_marked_stops@[i as int],
                    forall|j: int| 0 <= j < newly_marked_stops@.len() ==> (#[trigger] newly_marked_stops@[j]).id < n,
                    k <= tt.transfers@[stop_id.id as int]@.len(),
                    newly_marked_stops@ == old(self).marked_stops_current@,
                    1 <= query_round < rows,
                    rows == old(self).parent_leg@.len(),
                    self.legs_shaped(rows),
                    self.tau_prev == old(self).tau_prev,
                    self.best_not_above(old(self).tau_best@),
                    self.marked_stops_current@.len() >= old(self).marked_stops_current@.len(),
                    forall|j: int|
                        0 <= j < newly_marked_stops@.len() ==> below_some_arrival(
                            &tt,
                            self.tau_current@[(#[trigger] newly_marked_stops@[j]).id as int],
                        ),
                    w.prev == w0.prev,
                    journeys.sized(n as nat),
                    journeys.witness() == w,
                journeys.sized(n as nat),
                journeys.witness() == w,
                    self.sound(w, origin, dep, query_round as nat),
                    self.improved_marked(best0),
                    self.flags_listed(),
                    self.marked_stops_prev == old(self).marked_stops_prev,
                    used.len() == i + 1,
                    used[i as int] == self.tau_current@[stop_id.id as int],
                    walks_progress(&tt, newly_marked_stops@, used, self.tau_best@, best0, i as int, k as int),
                decreases tt.transfers@[stop_id.id as int]@.len() - k,
            {
                let transfer = self.timetable.transfers[stop_id.id][k];
                let transfer_dest_id = transfer.to_stop;
                proof {
                    assert(transfer == tt.transfers@[stop_id.id as int]@[k as int]);
                    assert(transfer_dest_id.id < n);
                    assert(below_some_arrival(&tt, self.tau_current@[stop_id.id as int]));
                    let (r, t, j) = choose|r: int, t: int, j: int|
                        0 <= r < tt.routes@.len() && 0 <= t < tt.routes@[r].trips@.len() && 0 <= j
                            < tt.routes@[r].trips@[t].stop_times@.len()
                            && self.tau_current@[stop_id.id as int] <= #[trigger] tt.arrival_at(r, t, j);
                    assert(tt.arrival_at(r, t, j) + tt.transfers@[stop_id.id as int]@[k as int].walk_time
                        <= usize::MAX);
                }
                let arrival_time = self.tau_current[stop_id.id] + transfer.walk_time;
                let ghost best_before_walk = self.tau_best@;
                if arrival_time < self.tau_current[transfer_dest_id.id] {
                    let ghost pre = *self;
                    let ghost old_cur = self.tau_current@;
                    let ghost old_best = self.tau_best@;
                    let ghost start = self.tau_current@[stop_id.id as int];
                    proof {
                        assert(forall|j: int|
                            0 <= j < newly_marked_stops@.len() ==> below_some_arrival(
                                &tt,
                                old_cur[(#[trigger] newly_marked_stops@[j]).id as int],
                            ));
                        assert(arrival_time == start + tt.transfers@[stop_id.id as int]@[k as int].walk_time);
                    }
                    self.tau_current.set(transfer_dest_id.id, arrival_time);
                    let improves_best = arrival_time < self.tau_best[transfer_dest_id.id];
                    let best = self.tau_best[transfer_dest_id.id].min(arrival_time);
                    self.tau_best.set(transfer_dest_id.id, best);
                    let leg = Leg {
                        origin_stop: stop_id,
                        destination_stop: transfer_dest_id,
                        leg_start_time: self.tau_current[stop_id.id],
                        leg_end_time: arrival_time,
                        trip_id: None,
                    };
                    self.parent_leg[query_round].set(transfer_dest_id.id, Some(leg));
                    let mut walk_legs = copy_legs(&journeys.current[stop_id.id]);
                    walk_legs.push(leg);
                    proof {
                        assert(walk_legs@ == w.current[stop_id.id as int].push(leg));
                    }
                    if improves_best {
                        let best_legs = copy_legs(&walk_legs);
                        proof {
                            lemma_rows_set(journeys.best@, transfer_dest_id.id as int, best_legs);
                        }
                        journeys.best.set(transfer_dest_id.id, best_legs);
                    }
                    proof {
                        lemma_rows_set(journeys.current@, transfer_dest_id.id as int, walk_legs);
                    }
                    journeys.current.set(transfer_dest_id.id, walk_legs);
                    if !self.marked_current[transfer_dest_id.id] {
                        self.marked_current.set(transfer_dest_id.id, true);
                        self.marked_stops_current.push(transfer_dest_id);
                    }
                    proof {
                        assert(self.marked_current@ =~= pre.marked_current@.update(transfer_dest_id.id as int, true));
                        lemma_marking_keeps(pre, *self, transfer_dest_id, best0);
                        assert(self.tau_current@ == old_cur.update(transfer_dest_id.id as int, arrival_time));
                        assert(transfer_dest_id.id != stop_id.id);
                        assert(leg.leg_start_time == start);
                        assert forall|j: int|
                            0 <= j < newly_marked_stops@.len() implies below_some_arrival(
                            &tt,
                            self.tau_current@[(#[trigger] newly_marked_stops@[j]).id as int],
                        ) by {
                            let x = newly_marked_stops@[j].id as int;
                            assert(0 <= x < n);
                            assert(below_some_arrival(&tt, old_cur[x]));
                            if x == transfer_dest_id.id {
                                let (r, t, q) = choose|r: int, t: int, q: int|
                                    0 <= r < tt.routes@.len() && 0 <= t < tt.routes@[r].trips@.len()
                                        && 0 <= q < tt.routes@[r].trips@[t].stop_times@.len()
                                        && old_cur[x] <= #[trigger] tt.arrival_at(r, t, q);
                                assert(self.tau_current@[x] <= tt.arrival_at(r, t, q));
                            } else {
                                assert(self.tau_current@[x] == old_cur[x]);
                            }
                        }
                        let pj = w.current[stop_id.id as int];
                        assert(start != INFINITY);
                        assert(journey_ok(&tt, origin, dep, pj, stop_id.id as int, start, query_round as nat));
                        assert(RaptorStopID { id: stop_id.id } == stop_id);
                        assert(leg_in_timetable(&tt, leg)) by {
                            assert(tt.transfers@[stop_id.id as int]@[k as int].to_stop == transfer_dest_id);
                            assert(leg.leg_end_time == leg.leg_start_time + tt.transfers@[stop_id.id as int]@[k as int].walk_time);
                            assert(0 <= leg.origin_stop.id < tt.transfers@.len());
                        }
                        lemma_extend_journey(&tt, origin, dep, pj, stop_id, start, leg);
                        lemma_count_rides_push(pj, leg);
                        let nj = pj.push(leg);
                        assert(RaptorStopID { id: transfer_dest_id.id } == transfer_dest_id);
                        assert(journey_ok(&tt, origin, dep, nj, transfer_dest_id.id as int, arrival_time, query_round as nat));
                        let old_w = w;
                        let new_best = if arrival_time < old_best[transfer_dest_id.id as int] {
                            w.best.update(transfer_dest_id.id as int, nj)
                        } else {
                            w.best
                        };
                        w = Witness {
                            prev: w.prev,
                            current: w.current.update(transfer_dest_id.id as int, nj),
                            best: new_best,
                        };
                        assert forall|x: int|
                            0 <= x < self.tau_current@.len() && self.tau_current@[x] != INFINITY implies #[trigger] journey_ok(
                            &tt,
                            origin,
                            dep,
                            w.current[x],
                            x,
                            self.tau_current@[x],
                            query_round as nat,
                        ) by {
                            if x != transfer_dest_id.id {
                                assert(journey_ok(&tt, origin, dep, old_w.current[x], x, old_cur[x], query_round as nat));
                            }
                        }
                        assert forall|x: int|
                            0 <= x < self.tau_best@.len() && self.tau_best@[x] != INFINITY implies #[trigger] journey_ok(
                            &tt,
                            origin,
                            dep,
                            w.best[x],
                            x,
                            self.tau_best@[x],
                            query_round as nat,
                        ) by {
                            if x != transfer_dest_id.id || arrival_time >= old_best[x] {
                                assert(journey_ok(&tt, origin, dep, old_w.best[x], x, old_best[x], query_round as nat));
                            }
                        }
                    }
                }
                proof {
                    lemma_progress_walk(&tt, newly_marked_stops@, used, best_before_walk, self.tau_best@, best0, i as int, k as int);
                }
                k = k + 1;
            }
            proof {
                lemma_progress_finish(&tt, newly_marked_stops@, used, self.tau_best@, best0, i as int);
            }
            i = i + 1;
        }
        proof {
            if walks_closed(&tt) && all_walks_exhausted(&tt, best0) && old(self).best_not_above(best0) && best0.len()
                == old(self).tau_best@.len() {
                lemma_progress_end(&tt, newly_marked_stops@, used, self.tau_best@, best0);
            }
        }
        Ghost(w)
    }

    /// Earliest arrival at `destination` when leaving `origin` at `departure_time`, with at
    /// most `max_transfers` transfers (10 when not given), that is one more boarding.
    /// Each query starts from cleared tables, and its answer is what `query_answer`
    /// states of the timetable and these arguments. An arrival found before the
    /// departure, which only trips that go back in time can cause, is refused rather than
    /// given a negative travel time.
    pub fn query(
        &mut self,
        origin: RaptorStopID,
        destination: RaptorStopID,
        departure_time: Seconds,
        max_transfers: Option<usize>,
    ) -> (res: Result<RaptorQueryResult, RaptorError>)
        requires
            old(self).inv(),
            old(self).table().wf(),
            old(self).table().times_fit(departure_time),
            origin.id < old(self).table().stops@.len(),
            destination.id < old(self).table().stops@.len(),
            max_transfers matches Some(m) ==> m + 2 <= usize::MAX,
        ensures
            final(self).inv(),
            final(self).table() == old(self).table(),
            res matches Ok(r) ==> r.earliest_arrival_time == final(self).earliest_arrival_at(destination),
            res matches Err(RaptorError::DestinationUnreachable { .. }) ==> final(self).earliest_arrival_at(destination)
                == INFINITY,
            res matches Err(RaptorError::InvalidGtfs(_)) ==> final(self).earliest_arrival_at(destination)
                < departure_time,
            query_answer(&old(self).table(), origin, destination, departure_time, max_transfers, res),
    {
        self.reset();
        let ghost tt = self.timetable;
        let max_transfers = match max_transfers {
            Some(num) => num,
            None => 10,
        };
        let max_boardings = max_transfers + 1;
        self.parent_leg = empty_leg_rows(max_boardings + 1, self.num_stops);
        let mut journeys = Journeys::new(self.num_stops);
        let w0 = self.start_query(origin, departure_time, &mut journeys);
        let ghost after_start = self.tau_best@;
        let ghost mut w = w0@;
        let ghost rides_complete = serving_complete(&tt) && all_routes_fifo(&tt) && tt.departures_finite();
        let ghost all_complete = rides_complete && walks_closed(&tt);
        let ghost mut rode = false;
        let ghost before_inc0 = *self;
        let mut query_round = match self.increment_round(0, max_boardings) {
            Some(round) => round,
            None => return self.best_so_far(origin, destination, departure_time, &journeys),
        };
        proof {
            if rides_complete {
                assert(self.tau_best@ == after_start);
                assert forall|legs: Seq<Leg>, p: RaptorStopID, a: Seconds|
                    #[trigger] feasible_journey(&tt, origin, departure_time, legs, p, a) && rides_after_first(legs)
                        && count_rides(legs) <= 0 && a < INFINITY implies self.tau_best@[p.id as int] <= a by {
                    lemma_no_rides_at_most_one_leg(legs);
                    if legs.len() == 1 {
                        let l = legs[0];
                        assert(legs.last() == l);
                        assert(count_rides(legs) == count_rides(legs.drop_last()) + if l.trip_id is Some { 1nat } else { 0nat });
                        assert(leg_in_timetable(&tt, l));
                        let k = choose|k: int|
                            0 <= k < tt.transfers@[l.origin_stop.id as int]@.len() && (#[trigger] tt.transfers@[l.origin_stop.id as int]@[k]).to_stop
                                == l.destination_stop && l.leg_end_time == l.leg_start_time
                                + tt.transfers@[l.origin_stop.id as int]@[k].walk_time;
                        assert(after_start[tt.transfers@[origin.id as int]@[k].to_stop.id as int] <= departure_time
                            + tt.transfers@[origin.id as int]@[k].walk_time);
                    }
                }
                assert(best_bounds_rides(&tt, origin, departure_time, self.tau_best@, 0));
                assert forall|x: int| 0 <= x < self.tau_best@.len() && self.tau_best@[x] != INFINITY implies
                    #[trigger] self.tau_prev@[x] == self.tau_best@[x] && self.marked_stops_prev@.contains(
                    RaptorStopID { id: x as usize },
                ) by {
                    assert(before_inc0.tau_best@[x] == self.tau_best@[x]);
                }
                assert(settled_or_marked(&tt, self.tau_best@, self.tau_prev@, self.marked_stops_prev@));
            }
            if all_complete {
                assert(self.tau_best@ == before_inc0.tau_best@);
                lemma_start_walks(&tt, origin, departure_time, self.tau_best@);
                assert forall|legs: Seq<Leg>, p: RaptorStopID, a: Seconds|
                    #[trigger] feasible_journey(&tt, origin, departure_time, legs, p, a) && count_rides(legs) <= 0
                        && a < INFINITY implies self.tau_best@[p.id as int] <= a by {
                    lemma_walk_journeys_bounded(&tt, origin, departure_time, self.tau_best@, legs, p, a);
                }
            }
        }
        proof {
            assert forall|x: int|
                0 <= x < self.tau_current@.len() && self.tau_current@[x] != INFINITY implies #[trigger] journey_ok(
                &tt,
                origin,
                departure_time,
                w.current[x],
                x,
                self.tau_current@[x],
                1,
            ) by {}
            assert forall|x: int|
                0 <= x < self.tau_prev@.len() && self.tau_prev@[x] != INFINITY implies #[trigger] journey_ok(
                &tt,
                origin,
                departure_time,
                w.current[x],
                x,
                self.tau_prev@[x],
                0,
            ) by {
                assert(journey_ok(&tt, origin, departure_time, w0@.current[x], x, self.tau_prev@[x], 0));
            }
            assert forall|x: int|
                0 <= x < self.tau_best@.len() && self.tau_best@[x] != INFINITY implies #[trigger] journey_ok(
                &tt,
                origin,
                departure_time,
                w.best[x],
                x,
                self.tau_best@[x],
                1,
            ) by {
                assert(journey_ok(&tt, origin, departure_time, w0@.best[x], x, self.tau_best@[x], 0));
            }
            w = Witness { prev: w.current, current: Seq::new(self.num_stops as nat, |x: int| Seq::<Leg>::empty()), best: w.best };
        }
        journeys.prev = copy_rows(&journeys.current);
        journeys.current = empty_rows(self.num_stops);
        while query_round <= max_boardings
            invariant_except_break
                self.marked_stops_current@.len() == 0,
                rides_complete ==> settled_or_marked(&tt, self.tau_best@, self.tau_prev@, self.marked_stops_prev@),
            invariant
                self.inv(),
                self.timetable == tt,
                tt.wf(),
                tt.times_fit(departure_time),
                destination.id < self.num_stops,
                1 <= query_round <= max_boardings,
                max_boardings == max_transfers + 1,
                self.legs_shaped((max_boardings + 1) as nat),
                self.best_not_above(after_start),
                self.sound(w, origin, departure_time, query_round as nat),
                journeys.sized(self.num_stops as nat),
                journeys.witness() == w,
                origin.id < self.num_stops,
                !rode ==> query_round == 1,
                !rode ==> self.tau_prev@[origin.id as int] == departure_time,
                !rode ==> self.marked_stops_prev@.contains(origin),
                rode && departure_time < INFINITY ==> rides_bounded(&tt, origin, departure_time, self.tau_best@, tt.routes@.len() as int),
                rides_complete == (serving_complete(&tt) && all_routes_fifo(&tt) && tt.departures_finite()),
                self.flags_listed(),
                rides_complete ==> best_bounds_rides(&tt, origin, departure_time, self.tau_best@, (query_round - 1) as nat),
                all_complete == (rides_complete && walks_closed(&tt)),
                all_complete ==> all_walks_exhausted(&tt, self.tau_best@),
                all_complete ==> best_bounds_journeys(&tt, origin, departure_time, self.tau_best@, (query_round - 1) as nat),
            ensures
                rode,
                rides_complete ==> best_bounds_rides(&tt, origin, departure_time, self.tau_best@, max_boardings as nat),
                all_complete ==> best_bounds_journeys(&tt, origin, departure_time, self.tau_best@, max_boardings as nat),
            decreases max_boardings + 1 - query_round,
        {
            let ghost best0 = self.tau_best@;
            let route_queue = self.build_route_queue();
            proof {
                if !rode {
                    let m = choose|m: int| 0 <= m < self.marked_stops_prev@.len() && self.marked_stops_prev@[m] == origin;
                    assert forall|k: int|
                        0 <= k < tt.routes_serving_stops@[origin.id as int]@.len() implies queued(
                        route_queue@,
                        #[trigger] tt.routes_serving_stops@[origin.id as int]@[k],
                    ) by {
                        assert(queued(route_queue@, tt.routes_serving_stops@[self.marked_stops_prev@[m].id as int]@[k]));
                    }
                }
            }
            let mut route_idx: usize = 0;
            while route_idx < route_queue.len()
                invariant
                    self.inv(),
                    self.timetable == tt,
                    tt.wf(),
                    tt.times_fit(departure_time),
                    destination.id < self.num_stops,
                    1 <= query_round <= max_boardings,
                    max_boardings == max_transfers + 1,
                    self.legs_shaped((max_boardings + 1) as nat),
                    self.best_not_above(after_start),
                    route_queue@.len() == tt.routes@.len(),
                    forall|r: int|
                        0 <= r < route_queue@.len() ==> (#[trigger] route_queue@[r] matches Some(q)
                            ==> q < tt.routes@[r].stops@.len()),
                    forall|i: int|
                        0 <= i < self.marked_stops_current@.len() ==> below_some_arrival(
                            &tt,
                            self.tau_current@[(#[trigger] self.marked_stops_current@[i]).id as int],
                        ),
                    self.sound(w, origin, departure_time, query_round as nat),
                    journeys.sized(self.num_stops as nat),
                    journeys.witness() == w,
                journeys.sized(self.num_stops as nat),
                journeys.witness() == w,
                    origin.id < self.num_stops,
                    route_idx <= route_queue@.len(),
                    !rode ==> self.tau_prev@[origin.id as int] == departure_time,
                    !rode ==> forall|k: int|
                        0 <= k < tt.routes_serving_stops@[origin.id as int]@.len() ==> queued(
                            route_queue@,
                            #[trigger] tt.routes_serving_stops@[origin.id as int]@[k],
                        ),
                    !rode && departure_time < INFINITY ==> rides_bounded(&tt, origin, departure_time, self.tau_best@, route_idx as int),
                    rode && departure_time < INFINITY ==> rides_bounded(&tt, origin, departure_time, self.tau_best@, tt.routes@.len() as int),
                    rides_complete == (serving_complete(&tt) && all_routes_fifo(&tt) && tt.departures_finite()),
                    best0.len() == self.tau_best@.len(),
                    self.best_not_above(best0),
                    self.improved_marked(best0),
                    self.flags_listed(),
                    forall|m: int, k: int|
                        0 <= m < self.marked_stops_prev@.len() && 0 <= k
                            < tt.routes_serving_stops@[self.marked_stops_prev@[m].id as int]@.len() ==> queued(
                            route_queue@,
                            #[trigger] tt.routes_serving_stops@[(#[trigger] self.marked_stops_prev@[m]).id as int]@[k],
                        ),
                    rides_complete ==> best_bounds_rides(&tt, origin, departure_time, best0, (query_round - 1) as nat),
                    rides_complete ==> settled_or_marked(&tt, best0, self.tau_prev@, self.marked_stops_prev@),
                    rides_complete ==> marked_exhausted(&tt, best0, self.tau_prev@, self.marked_stops_prev@, self.tau_best@, route_idx as int),
                    all_complete == (rides_complete && walks_closed(&tt)),
                    all_complete ==> all_walks_exhausted(&tt, best0),
                    all_complete ==> best_bounds_journeys(&tt, origin, departure_time, best0, (query_round - 1) as nat),
                decreases route_queue@.len() - route_idx,
            {
                match route_queue[route_idx] {
                    Some(start_position) => {
                        proof {
                            assert(route_queue@[route_idx as int] matches Some(q) ==> q
                                < tt.routes@[route_idx as int].stops@.len());
                        }
                        let ghost before = self.tau_best@;
                        let nw = self.scan_route(
                            route_idx,
                            start_position,
                            query_round,
                            Ghost(origin),
                            Ghost(departure_time),
                            Ghost(w),
                            Ghost(best0),
                            &mut journeys,
                        );
                        proof {
                            w = nw@;
                            assert forall|x: int|
                                0 <= x < self.tau_best@.len() implies #[trigger] self.tau_best@[x]
                                <= after_start[x] by {
                                assert(self.tau_best@[x] <= before[x]);
                            }
                            if departure_time < INFINITY {
                                if rode {
                                    lemma_rides_bounded_lower(&tt, origin, departure_time, before, self.tau_best@, tt.routes@.len() as int);
                                } else {
                                    lemma_route_step(&tt, origin, departure_time, route_queue@, self.tau_prev@, before, self.tau_best@, route_idx as int);
                                }
                            }
                            assert forall|x: int| 0 <= x < self.tau_best@.len() implies #[trigger] self.tau_best@[x]
                                <= best0[x] by {
                                assert(self.tau_best@[x] <= before[x]);
                            }
                            if rides_complete {
                                assert(no_overtaking(&tt, route_idx as int));
                                lemma_scan_exhausts(&tt, route_queue@, self.marked_stops_prev@, self.tau_prev@, best0, before, self.tau_best@, route_idx as int);
                            }
                        }
                    },
                    None => {
                        proof {
                            if !rode && departure_time < INFINITY {
                                lemma_route_step(&tt, origin, departure_time, route_queue@, self.tau_prev@, self.tau_best@, self.tau_best@, route_idx as int);
                            }
                            if rides_complete {
                                lemma_scan_exhausts(&tt, route_queue@, self.marked_stops_prev@, self.tau_prev@, best0, self.tau_best@, self.tau_best@, route_idx as int);
                            }
                        }
                    },
                }
                route_idx = route_idx + 1;
            }
            let ghost before = self.tau_best@;
            let nw = self.relax_transfers(
                query_round,
                Ghost(origin),
                Ghost(departure_time),
                Ghost(w),
                Ghost(best0),
                &mut journeys,
            );
            proof {
                w = nw@;
                assert forall|x: int|
                    0 <= x < self.tau_best@.len() implies #[trigger] self.tau_best@[x]
                    <= after_start[x] by {
                    assert(self.tau_best@[x] <= before[x]);
                }
                if departure_time < INFINITY {
                    lemma_rides_bounded_lower(&tt, origin, departure_time, before, self.tau_best@, tt.routes@.len() as int);
                }
                rode = true;
                if rides_complete {
                    assert forall|x: int| 0 <= x < self.tau_best@.len() implies #[trigger] self.tau_best@[x]
                        <= best0[x] by {
                        assert(self.tau_best@[x] <= before[x]);
                    }
                    lemma_marked_exhausted_lower(&tt, best0, self.tau_prev@, self.marked_stops_prev@, before, self.tau_best@, tt.routes@.len() as int);
                    lemma_round_bounds(&tt, origin, departure_time, best0, self.tau_prev@, self.marked_stops_prev@, self.tau_best@, (query_round - 1) as nat);
                    assert forall|y: int|
                        0 <= y < self.tau_best@.len() && #[trigger] self.tau_best@[y] < best0[y] implies self.tau_current@[y]
                            == self.tau_best@[y] && self.marked_stops_current@.contains(RaptorStopID { id: y as usize }) by {
                        assert(self.marked_current@[y]);
                    }
                    lemma_round_settles(&tt, best0, self.tau_prev@, self.marked_stops_prev@, self.tau_best@, self.tau_current@, self.marked_stops_current@);
                    if all_complete {
                        lemma_round_bounds_journeys(&tt, origin, departure_time, best0, self.tau_prev@, self.marked_stops_prev@, self.tau_best@, (query_round - 1) as nat);
                    }
                }
            }
            if self.marked_stops_current.len() == 0 {
                proof {
                    if rides_complete {
                        assert forall|x: int| 0 <= x < self.tau_best@.len() && self.tau_best@[x] != INFINITY implies #[trigger] exhausted(
                            &tt,
                            self.tau_best@,
                            x,
                            self.tau_best@[x],
                            tt.routes@.len() as int,
                        ) by {
                            assert(!self.marked_stops_current@.contains(RaptorStopID { id: x as usize }));
                        }
                        lemma_bounds_all(&tt, origin, departure_time, self.tau_best@, query_round as nat, max_boardings as nat);
                        if all_complete {
                            lemma_bounds_all_journeys(&tt, origin, departure_time, self.tau_best@, query_round as nat, max_boardings as nat);
                        }
                    }
                }
                break;
            }
            let ghost before_inc = *self;
            query_round = match self.increment_round(query_round, max_boardings) {
                Some(round) => round,
                None => break,
            };
            proof {
                if rides_complete {
                    assert(self.tau_best@ == before_inc.tau_best@);
                    assert(settled_or_marked(&tt, self.tau_best@, self.tau_prev@, self.marked_stops_prev@));
                }
            }
            proof {
                assert forall|x: int|
                    0 <= x < self.tau_prev@.len() && self.tau_prev@[x] != INFINITY implies #[trigger] journey_ok(
                    &tt,
                    origin,
                    departure_time,
                    w.current[x],
                    x,
                    self.tau_prev@[x],
                    (query_round - 1) as nat,
                ) by {
                    assert(journey_ok(&tt, origin, departure_time, w.current[x], x, before_inc.tau_current@[x], (query_round - 1) as nat));
                }
                assert forall|x: int|
                    0 <= x < self.tau_best@.len() && self.tau_best@[x] != INFINITY implies #[trigger] journey_ok(
                    &tt,
                    origin,
                    departure_time,
                    w.best[x],
                    x,
                    self.tau_best@[x],
                    query_round as nat,
                ) by {
                    assert(journey_ok(&tt, origin, departure_time, w.best[x], x, self.tau_best@[x], (query_round - 1) as nat));
                }
                w = Witness { prev: w.current, current: Seq::new(self.num_stops as nat, |x: int| Seq::<Leg>::empty()), best: w.best };
            }
            journeys.prev = copy_rows(&journeys.current);
            journeys.current = empty_rows(self.num_stops);
        }
        proof {
            if rides_complete {
                assert forall|legs: Seq<Leg>, a: Seconds|
                    #[trigger] feasible_journey(&tt, origin, departure_time, legs, destination, a) && rides_after_first(legs)
                        && count_rides(legs) <= max_boardings && a < INFINITY implies self.tau_best@[destination.id as int] <= a by {}
            }
            if all_complete {
                assert forall|legs: Seq<Leg>, a: Seconds|
                    #[trigger] feasible_journey(&tt, origin, departure_time, legs, destination, a) && count_rides(legs)
                        <= max_boardings && a < INFINITY implies self.tau_best@[destination.id as int] <= a by {}
            }
            if departure_time < INFINITY {
                assert forall|r: int, t: int, i: int, j: int, k: int|
                    #[trigger] direct_ride(&tt, origin, departure_time, r, t, i, j, k) && no_overtaking(&tt, r)
                        && tt.routes@[r].stops@[j] == destination && tt.arrival_at(r, t, j) < INFINITY implies self.tau_best@[destination.id as int]
                        <= tt.arrival_at(r, t, j) by {}
            }
            let d = destination.id as int;
            if self.tau_best@[d] != INFINITY {
                assert(journey_ok(&tt, origin, departure_time, w.best[d], d, self.tau_best@[d], query_round as nat));
                assert(RaptorStopID { id: destination.id } == destination);
                assert(feasible_journey(&tt, origin, departure_time, w.best[d], destination, self.tau_best@[d]));
                assert(attainable(&tt, origin, departure_time, destination, self.tau_best@[d], max_boardings as nat));
            }
        }
        self.best_so_far(origin, destination, departure_time, &journeys)
    }
}

} // verus!
