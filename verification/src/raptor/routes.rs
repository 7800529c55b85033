use std::collections::HashMap;

use vstd::prelude::*;

use crate::datetime::Seconds;
use crate::errors::RaptorError;
use crate::datetime::time_fits;
use crate::gtfs_columns::{StopTimesColumns, TripColumns};
use crate::raptor::feed::{cell, get_cell, table_column, RaptorGtfsFeed};
use crate::raptor::ids::{text_keyed, text_map_get, text_map_len, IdMap};
use crate::raptor::loader::{
    build_stop_times_by_trip, first_missing_stop_times_column, groups_view, insert_by_sequence,
    missing_column, read_stop_times, row_error_is, stop_time_columns, stop_times_column,
    stop_times_upto, times_fit_in_column, upper_bound, RowOutcome, StopTimeColumns, StopTimeEntry,
    StopTimesByTrip,
};
use crate::raptor::types::{
    RaptorRoute, RaptorRouteServingStop, RaptorStopID, RaptorStopTime, RaptorTrip, RaptorTripID,
    TimetableRouteID,
};
use crate::text::{decimal, push_decimal};

verus! {

broadcast use vstd::std_specs::hash::group_hash_axioms;

/// A trip as the timetable holds it: its dense id and its stop times in route order.
pub type TripTimes = (usize, Seq<RaptorStopTime>);

pub open spec fn trip_view(t: RaptorTrip) -> TripTimes {
    (t.trip_id.id, t.stop_times@)
}

pub open spec fn trips_view(ts: Seq<RaptorTrip>) -> Seq<TripTimes> {
    ts.map_values(|t: RaptorTrip| trip_view(t))
}

/// The stops of a trip's stop times, in their order.
pub open spec fn entry_stops(entries: Seq<StopTimeEntry>) -> Seq<RaptorStopID> {
    entries.map_values(|e: StopTimeEntry| e.1)
}

/// The position of each stop along a route: the last position where it stands.
pub open spec fn stop_positions(stops: Seq<RaptorStopID>) -> Map<usize, usize>
    decreases stops.len(),
{
    if stops.len() == 0 {
        Map::empty()
    } else {
        stop_positions(stops.drop_last()).insert(stops.last().id, (stops.len() - 1) as usize)
    }
}

/// The stop times of a trip placed at the positions of their stops along the route, the
/// other positions left at zero; or the first stop (its dense id) that the route does not
/// serve.
pub open spec fn placed_times(
    entries: Seq<StopTimeEntry>,
    pos: Map<usize, usize>,
    n: nat,
) -> Result<Seq<RaptorStopTime>, usize>
    decreases entries.len(),
{
    if entries.len() == 0 {
        Ok(Seq::new(n, |i: int| RaptorStopTime { arrival: 0, departure: 0 }))
    } else {
        match placed_times(entries.drop_last(), pos, n) {
            Err(s) => Err(s),
            Ok(times) => {
                let e = entries.last();
                if pos.contains_key(e.1.id) {
                    Ok(times.update(pos[e.1.id] as int, RaptorStopTime { arrival: e.2, departure: e.3 }))
                } else {
                    Err(e.1.id)
                }
            },
        }
    }
}

/// `RaptorTripID { id: t }`, as `{:?}` writes it.
pub open spec fn trip_debug(t: usize) -> Seq<char> {
    "RaptorTripID { id: "@ + decimal(t as nat) + " }"@
}

/// `RaptorStopID { id: s }`, as `{:?}` writes it.
pub open spec fn stop_debug(s: usize) -> Seq<char> {
    "RaptorStopID { id: "@ + decimal(s as nat) + " }"@
}

pub open spec fn no_times_message(t: usize) -> Seq<char> {
    "trip_id '"@ + trip_debug(t) + "' in trips.txt has no stop times in stop_times.txt"@
}

pub open spec fn stop_not_on_route_message(s: usize, t: usize) -> Seq<char> {
    "stop '"@ + stop_debug(s) + "' in trip '"@ + trip_debug(t)
        + "' stop_times not found in route stop sequence"@
}

/// The trips of a route with their times placed along its `n` stops, in the order given;
/// or the message of the first trip that has no stop times or stops off the route.
pub open spec fn route_trip_times(
    trips: Seq<usize>,
    st: Map<usize, Seq<StopTimeEntry>>,
    pos: Map<usize, usize>,
    n: nat,
) -> Result<Seq<TripTimes>, Seq<char>>
    decreases trips.len(),
{
    if trips.len() == 0 {
        Ok(Seq::empty())
    } else {
        match route_trip_times(trips.drop_last(), st, pos, n) {
            Err(m) => Err(m),
            Ok(done) => {
                let t = trips.last();
                if !st.contains_key(t) {
                    Err(no_times_message(t))
                } else {
                    match placed_times(st[t], pos, n) {
                        Ok(times) => Ok(done.push((t, times))),
                        Err(s) => Err(stop_not_on_route_message(s, t)),
                    }
                }
            },
        }
    }
}

/// Departure of a trip from the first stop of its route.
pub open spec fn first_departure(t: TripTimes) -> Seconds {
    t.1[0].departure
}

/// Index of the first trip that leaves later than `d`, in a list ordered by departure.
pub open spec fn departure_bound(s: Seq<TripTimes>, d: Seconds) -> int
    decreases s.len(),
{
    if s.len() == 0 {
        0
    } else if first_departure(s[0]) > d {
        0
    } else {
        1 + departure_bound(s.drop_first(), d)
    }
}

/// The trips ordered by their first departure; trips that leave together keep their order.
pub open spec fn by_departure(s: Seq<TripTimes>) -> Seq<TripTimes>
    decreases s.len(),
{
    if s.len() == 0 {
        s
    } else {
        let done = by_departure(s.drop_last());
        done.insert(departure_bound(done, first_departure(s.last())), s.last())
    }
}

/// Positions of the stops of a route, by dense stop id (the last position of each).
pub fn positions_of(stops: &Vec<RaptorStopID>) -> (res: HashMap<usize, usize>)
    ensures
        res@ == stop_positions(stops@),
{
    let mut m: HashMap<usize, usize> = HashMap::new();
    let mut i: usize = 0;
    while i < stops.len()
        invariant
            i <= stops@.len(),
            m@ == stop_positions(stops@.take(i as int)),
        decreases stops@.len() - i,
    {
        proof {
            assert(stops@.take(i + 1).drop_last() =~= stops@.take(i as int));
        }
        m.insert(stops[i].id, i);
        i = i + 1;
    }
    proof {
        assert(stops@.take(i as int) =~= stops@);
    }
    m
}

proof fn lemma_placed_len(entries: Seq<StopTimeEntry>, pos: Map<usize, usize>, n: nat)
    requires
        forall|s: usize| #[trigger] pos.contains_key(s) ==> pos[s] < n,
    ensures
        placed_times(entries, pos, n) matches Ok(t) ==> t.len() == n,
    decreases entries.len(),
{
    if entries.len() > 0 {
        lemma_placed_len(entries.drop_last(), pos, n);
    }
}

/// Places a trip's stop times at the positions of their stops along the route.
pub fn place_trip_times(entries: &Vec<StopTimeEntry>, pos: &HashMap<usize, usize>, n: usize) -> (res: Result<
    Vec<RaptorStopTime>,
    usize,
>)
    requires
        forall|s: usize| #[trigger] pos@.contains_key(s) ==> pos@[s] < n,
    ensures
        match placed_times(entries@, pos@, n as nat) {
            Ok(t) => res matches Ok(v) && v@ == t,
            Err(s) => res == Err::<Vec<RaptorStopTime>, usize>(s),
        },
{
    let mut times: Vec<RaptorStopTime> = Vec::new();
    let mut k: usize = 0;
    while k < n
        invariant
            k <= n,
            times@ == Seq::new(k as nat, |i: int| RaptorStopTime { arrival: 0, departure: 0 }),
        decreases n - k,
    {
        times.push(RaptorStopTime { arrival: 0, departure: 0 });
        k = k + 1;
        proof {
            assert(times@ =~= Seq::new(k as nat, |i: int| RaptorStopTime { arrival: 0, departure: 0 }));
        }
    }
    let mut i: usize = 0;
    proof {
        assert(entries@.take(0) =~= Seq::<StopTimeEntry>::empty());
    }
    while i < entries.len()
        invariant
            i <= entries@.len(),
            forall|s: usize| #[trigger] pos@.contains_key(s) ==> pos@[s] < n,
            times@.len() == n,
            placed_times(entries@.take(i as int), pos@, n as nat) == Ok::<Seq<RaptorStopTime>, usize>(times@),
        decreases entries@.len() - i,
    {
        proof {
            assert(entries@.take(i + 1).drop_last() =~= entries@.take(i as int));
            assert(entries@.take(i + 1).last() == entries@[i as int]);
        }
        let e = entries[i];
        match pos.get(&e.1.id) {
            Some(p) => {
                times.set(*p, RaptorStopTime { arrival: e.2, departure: e.3 });
            },
            None => {
                proof {
                    lemma_placed_err_stays(entries@, pos@, n as nat, (i + 1) as nat);
                }
                return Err(e.1.id);
            },
        }
        i = i + 1;
    }
    proof {
        assert(entries@.take(i as int) =~= entries@);
    }
    Ok(times)
}

proof fn lemma_placed_err_stays(entries: Seq<StopTimeEntry>, pos: Map<usize, usize>, n: nat, k: nat)
    requires
        k <= entries.len(),
        placed_times(entries.take(k as int), pos, n) is Err,
    ensures
        placed_times(entries, pos, n) == placed_times(entries.take(k as int), pos, n),
    decreases entries.len(),
{
    if k < entries.len() {
        assert(entries.drop_last().take(k as int) =~= entries.take(k as int));
        lemma_placed_err_stays(entries.drop_last(), pos, n, k);
    } else {
        assert(entries.take(k as int) =~= entries);
    }
}

/// Appends `RaptorTripID { id: t }`.
fn push_trip_debug(msg: &mut String, t: usize)
    ensures
        final(msg)@ == old(msg)@ + trip_debug(t),
{
    msg.append("RaptorTripID { id: ");
    push_decimal(msg, t);
    msg.append(" }");
}

/// Appends `RaptorStopID { id: s }`.
fn push_stop_debug(msg: &mut String, s: usize)
    ensures
        final(msg)@ == old(msg)@ + stop_debug(s),
{
    msg.append("RaptorStopID { id: ");
    push_decimal(msg, s);
    msg.append(" }");
}

proof fn lemma_trip_times_err_stays(
    trips: Seq<usize>,
    st: Map<usize, Seq<StopTimeEntry>>,
    pos: Map<usize, usize>,
    n: nat,
    k: nat,
)
    requires
        k <= trips.len(),
        route_trip_times(trips.take(k as int), st, pos, n) is Err,
    ensures
        route_trip_times(trips, st, pos, n) == route_trip_times(trips.take(k as int), st, pos, n),
    decreases trips.len(),
{
    if k < trips.len() {
        assert(trips.drop_last().take(k as int) =~= trips.take(k as int));
        lemma_trip_times_err_stays(trips.drop_last(), st, pos, n, k);
    } else {
        assert(trips.take(k as int) =~= trips);
    }
}

/// The trips of a route, each with its stop times placed along the route's `n` stops.
pub fn route_trips(
    trips: &Vec<usize>,
    st: &StopTimesByTrip,
    pos: &HashMap<usize, usize>,
    n: usize,
) -> (res: Result<Vec<RaptorTrip>, RaptorError>)
    requires
        forall|s: usize| #[trigger] pos@.contains_key(s) ==> pos@[s] < n,
    ensures
        match route_trip_times(trips@, groups_view(st@), pos@, n as nat) {
            Ok(ts) => res matches Ok(v) && trips_view(v@) == ts,
            Err(m) => res matches Err(RaptorError::InvalidGtfs(x)) && x@ == m,
        },
{
    let ghost stv = groups_view(st@);
    let mut out: Vec<RaptorTrip> = Vec::new();
    let mut i: usize = 0;
    proof {
        assert(trips_view(out@) =~= Seq::<TripTimes>::empty());
        assert(trips@.take(0) =~= Seq::<usize>::empty());
    }
    while i < trips.len()
        invariant
            i <= trips@.len(),
            stv == groups_view(st@),
            forall|s: usize| #[trigger] pos@.contains_key(s) ==> pos@[s] < n,
            route_trip_times(trips@.take(i as int), stv, pos@, n as nat) == Ok::<Seq<TripTimes>, Seq<char>>(
                trips_view(out@),
            ),
        decreases trips@.len() - i,
    {
        proof {
            assert(trips@.take(i + 1).drop_last() =~= trips@.take(i as int));
            assert(trips@.take(i + 1).last() == trips@[i as int]);
        }
        let t = trips[i];
        let entries = match st.get(&t) {
            Some(e) => e,
            None => {
                let mut msg = String::from_str("trip_id '");
                push_trip_debug(&mut msg, t);
                msg.append("' in trips.txt has no stop times in stop_times.txt");
                proof {
                    assert(!stv.contains_key(t));
                    lemma_trip_times_err_stays(trips@, stv, pos@, n as nat, (i + 1) as nat);
                }
                return Err(RaptorError::InvalidGtfs(msg));
            },
        };
        assert(stv.contains_key(t) && stv[t] == entries@);
        match place_trip_times(entries, pos, n) {
            Ok(times) => {
                let ghost before = trips_view(out@);
                let ghost tv = times@;
                out.push(RaptorTrip { trip_id: RaptorTripID::new(t), stop_times: times });
                proof {
                    assert(trips_view(out@) =~= before.push((t, tv)));
                }
            },
            Err(s) => {
                let mut msg = String::from_str("stop '");
                push_stop_debug(&mut msg, s);
                msg.append("' in trip '");
                push_trip_debug(&mut msg, t);
                msg.append("' stop_times not found in route stop sequence");
                proof {
                    lemma_trip_times_err_stays(trips@, stv, pos@, n as nat, (i + 1) as nat);
                }
                return Err(RaptorError::InvalidGtfs(msg));
            },
        }
        i = i + 1;
    }
    proof {
        assert(trips@.take(i as int) =~= trips@);
    }
    Ok(out)
}

proof fn lemma_departure_bound(s: Seq<TripTimes>, d: Seconds, p: int)
    requires
        0 <= p <= s.len(),
        forall|j: int| 0 <= j < p ==> first_departure(#[trigger] s[j]) <= d,
        p < s.len() ==> first_departure(s[p]) > d,
    ensures
        departure_bound(s, d) == p,
    decreases p,
{
    if p > 0 {
        assert forall|j: int| 0 <= j < p - 1 implies first_departure(#[trigger] s.drop_first()[j]) <= d by {
            assert(s.drop_first()[j] == s[j + 1]);
        }
        if p - 1 < s.drop_first().len() {
            assert(s.drop_first()[p - 1] == s[p]);
        }
        lemma_departure_bound(s.drop_first(), d, p - 1);
    }
}

/// Orders trips by their departure from the route's first stop; trips that leave
/// together keep their order.
pub(crate) fn sort_by_departure(trips: Vec<RaptorTrip>, Ghost(n): Ghost<nat>) -> (res: Vec<RaptorTrip>)
    requires
        n > 0,
        forall|i: int| 0 <= i < trips@.len() ==> (#[trigger] trips@[i]).stop_times@.len() == n,
    ensures
        trips_view(res@) == by_departure(trips_view(trips@)),
        forall|i: int| 0 <= i < res@.len() ==> (#[trigger] res@[i]).stop_times@.len() == n,
{
    let ghost orig = trips_view(trips@);
    let ghost orig_trips = trips@;
    let mut rest = trips;
    let mut out: Vec<RaptorTrip> = Vec::new();
    let ghost mut k: int = 0;
    proof {
        assert(orig.take(0) =~= Seq::<TripTimes>::empty());
        assert(trips_view(out@) =~= Seq::<TripTimes>::empty());
        assert(rest@ =~= orig_trips.skip(0));
    }
    while rest.len() > 0
        invariant
            0 <= k <= orig.len(),
            orig == trips_view(orig_trips),
            n > 0,
            forall|i: int| 0 <= i < orig_trips.len() ==> (#[trigger] orig_trips[i]).stop_times@.len() == n,
            rest@ == orig_trips.skip(k),
            trips_view(out@) == by_departure(orig.take(k)),
            forall|i: int| 0 <= i < out@.len() ==> (#[trigger] out@[i]).stop_times@.len() == n,
        decreases rest@.len(),
    {
        let t = rest.remove(0);
        proof {
            assert(t == orig_trips[k]);
            assert(orig.take(k + 1).drop_last() =~= orig.take(k));
            assert(orig.take(k + 1).last() == trip_view(t));
        }
        let d = t.stop_times[0].departure;
        let mut p: usize = 0;
        while p < out.len() && out[p].stop_times[0].departure <= d
            invariant
                p <= out@.len(),
                n > 0,
                forall|i: int| 0 <= i < out@.len() ==> (#[trigger] out@[i]).stop_times@.len() == n,
                forall|j: int| 0 <= j < p ==> first_departure(#[trigger] trips_view(out@)[j]) <= d,
            decreases out@.len() - p,
        {
            p = p + 1;
        }
        proof {
            lemma_departure_bound(trips_view(out@), d, p as int);
        }
        let ghost before = trips_view(out@);
        let ghost before_out = out@;
        let ghost tv = trip_view(t);
        out.insert(p, t);
        proof {
            assert(trips_view(out@) =~= before.insert(p as int, tv));
            k = k + 1;
            assert(rest@ =~= orig_trips.skip(k));
            assert forall|i: int| 0 <= i < out@.len() implies (#[trigger] out@[i]).stop_times@.len() == n by {
                if i < p {
                } else if i > p {
                    assert(out@[i] == before_out[i - 1]);
                }
            }
        }
    }
    proof {
        assert(orig.take(k) =~= orig);
    }
    out
}

/// The route of each trip, from the rows of `trips.txt` (a trip on several rows takes
/// the route of its last row); or the message of the first row that lacks an id or names
/// one the maps do not hold.
pub open spec fn trip_routes_upto(
    trip_col: Seq<Option<String>>,
    route_col: Seq<Option<String>>,
    trip_ids: Map<Seq<char>, usize>,
    route_ids: Map<Seq<char>, usize>,
    n: nat,
) -> Result<Map<usize, usize>, Seq<char>>
    decreases n,
{
    if n == 0 {
        Ok(Map::empty())
    } else {
        match trip_routes_upto(trip_col, route_col, trip_ids, route_ids, (n - 1) as nat) {
            Err(m) => Err(m),
            Ok(m) => {
                let row = n - 1;
                let missing_trip = "Missing trip_id in trips.txt for row "@ + decimal(row as nat);
                let missing_route = "Missing route_id in trips.txt for row "@ + decimal(row as nat);
                match cell(trip_col, row) {
                    None => Err(missing_trip),
                    Some(t) => match cell(route_col, row) {
                        None => Err(missing_route),
                        Some(r) => if !trip_ids.contains_key(t@) {
                            Err(missing_trip)
                        } else if !route_ids.contains_key(r@) {
                            Err(missing_route)
                        } else {
                            Ok(m.insert(trip_ids[t@], route_ids[r@]))
                        },
                    },
                }
            },
        }
    }
}

/// The trips of each route, in increasing trip id, among the trips below `b`.
pub open spec fn route_groups(tr: Map<usize, usize>, b: nat) -> Map<usize, Seq<usize>>
    decreases b,
{
    if b == 0 {
        Map::empty()
    } else {
        let g = route_groups(tr, (b - 1) as nat);
        let t = (b - 1) as usize;
        if tr.contains_key(t) {
            let r = tr[t];
            let group = if g.contains_key(r) {
                g[r]
            } else {
                Seq::empty()
            };
            g.insert(r, group.push(t))
        } else {
            g
        }
    }
}

/// A route's stops in order and its trips ordered by departure.
pub type RouteShape = (Seq<RaptorStopID>, Seq<TripTimes>);

/// What a route with the trips `g` (in increasing id) becomes.
pub enum RouteBuild {
    /// The route is left out: its first trip has no stop times.
    Skip,
    /// The route's stops (those of its first trip) and its trips.
    Built(RouteShape),
    /// A trip of the route has no stop times or stops off the route.
    Fail(Seq<char>),
}

pub open spec fn build_route_spec(g: Seq<usize>, st: Map<usize, Seq<StopTimeEntry>>) -> RouteBuild {
    let first = g[0];
    if !st.contains_key(first) {
        RouteBuild::Skip
    } else {
        let stops = entry_stops(st[first]);
        if stops.len() == 0 {
            RouteBuild::Skip
        } else {
            match route_trip_times(g, st, stop_positions(stops), stops.len()) {
                Err(m) => RouteBuild::Fail(m),
                Ok(ts) => if ts.len() == 0 {
                    RouteBuild::Skip
                } else {
                    RouteBuild::Built((stops, by_departure(ts)))
                },
            }
        }
    }
}

/// The routes built from the routes below `k`, in increasing route id (a route's index in
/// the result is its timetable id); or the first failure's message.
pub open spec fn routes_upto(
    groups: Map<usize, Seq<usize>>,
    st: Map<usize, Seq<StopTimeEntry>>,
    k: nat,
) -> Result<Seq<RouteShape>, Seq<char>>
    decreases k,
{
    if k == 0 {
        Ok(Seq::empty())
    } else {
        match routes_upto(groups, st, (k - 1) as nat) {
            Err(m) => Err(m),
            Ok(rs) => {
                let r = (k - 1) as usize;
                if !groups.contains_key(r) || groups[r].len() == 0 {
                    Ok(rs)
                } else {
                    match build_route_spec(groups[r], st) {
                        RouteBuild::Skip => Ok(rs),
                        RouteBuild::Fail(m) => Err(m),
                        RouteBuild::Built(shape) => Ok(rs.push(shape)),
                    }
                }
            },
        }
    }
}

/// The routes serving each of `n` stops after adding the first `p` stops of a route.
pub open spec fn serve_stops(
    rss: Seq<Seq<RaptorRouteServingStop>>,
    stops: Seq<RaptorStopID>,
    route: usize,
    p: nat,
) -> Seq<Seq<RaptorRouteServingStop>>
    decreases p,
{
    if p == 0 {
        rss
    } else {
        let prev = serve_stops(rss, stops, route, (p - 1) as nat);
        let s = stops[p - 1].id as int;
        prev.update(
            s,
            prev[s].push(
                RaptorRouteServingStop {
                    route_id: TimetableRouteID { id: route },
                    stop_sequence: (p - 1) as usize,
                },
            ),
        )
    }
}

/// The routes serving each of `n` stops, with the stop's position along each, for the
/// first `k` routes in order.
pub open spec fn serving(routes: Seq<RouteShape>, n: nat, k: nat) -> Seq<Seq<RaptorRouteServingStop>>
    decreases k,
{
    if k == 0 {
        Seq::new(n, |i: int| Seq::empty())
    } else {
        let prev = serving(routes, n, (k - 1) as nat);
        let stops = routes[k - 1].0;
        serve_stops(prev, stops, (k - 1) as usize, stops.len())
    }
}

pub open spec fn route_view(r: RaptorRoute) -> RouteShape {
    (r.stops@, trips_view(r.trips@))
}

pub open spec fn routes_view(rs: Seq<RaptorRoute>) -> Seq<RouteShape> {
    rs.map_values(|r: RaptorRoute| route_view(r))
}

pub open spec fn serving_view(v: Seq<Vec<RaptorRouteServingStop>>) -> Seq<Seq<RaptorRouteServingStop>> {
    v.map_values(|x: Vec<RaptorRouteServingStop>| x@)
}

pub open spec fn usize_groups_view(g: Map<usize, Vec<usize>>) -> Map<usize, Seq<usize>> {
    Map::new(|r: usize| g.contains_key(r), |r: usize| g[r]@)
}

proof fn lemma_trip_routes_err_stays(
    trip_col: Seq<Option<String>>,
    route_col: Seq<Option<String>>,
    trip_ids: Map<Seq<char>, usize>,
    route_ids: Map<Seq<char>, usize>,
    k: nat,
    n: nat,
)
    requires
        k <= n,
        trip_routes_upto(trip_col, route_col, trip_ids, route_ids, k) is Err,
    ensures
        trip_routes_upto(trip_col, route_col, trip_ids, route_ids, n) == trip_routes_upto(
            trip_col,
            route_col,
            trip_ids,
            route_ids,
            k,
        ),
    decreases n,
{
    if n > k {
        lemma_trip_routes_err_stays(trip_col, route_col, trip_ids, route_ids, k, (n - 1) as nat);
    }
}

fn message_with_row(text: &str, row: usize) -> (res: String)
    ensures
        res@ == text@ + decimal(row as nat),
{
    let mut msg = String::from_str(text);
    push_decimal(&mut msg, row);
    msg
}

/// Reads the route of every trip from the rows of `trips.txt`; also gives the largest
/// trip id and the largest route id met.
pub fn trip_routes(
    trip_col: &Vec<Option<String>>,
    route_col: &Vec<Option<String>>,
    id_map: &IdMap,
) -> (res: Result<(HashMap<usize, usize>, usize, usize), RaptorError>)
    ensures
        match trip_routes_upto(
            trip_col@,
            route_col@,
            text_keyed(id_map.trips),
            text_keyed(id_map.routes),
            trip_col@.len(),
        ) {
            Ok(m) => res matches Ok((h, max_t, max_r)) && h@ == m && forall|t: usize|
                #[trigger] m.contains_key(t) ==> t <= max_t && m[t] <= max_r,
            Err(msg) => res matches Err(RaptorError::InvalidGtfs(x)) && x@ == msg,
        },
{
    let ghost mt = text_keyed(id_map.trips);
    let ghost mr = text_keyed(id_map.routes);
    let mut h: HashMap<usize, usize> = HashMap::new();
    let mut max_t: usize = 0;
    let mut max_r: usize = 0;
    let mut row: usize = 0;
    while row < trip_col.len()
        invariant
            row <= trip_col@.len(),
            mt == text_keyed(id_map.trips),
            mr == text_keyed(id_map.routes),
            trip_routes_upto(trip_col@, route_col@, mt, mr, row as nat) == Ok::<
                Map<usize, usize>,
                Seq<char>,
            >(h@),
            forall|t: usize| #[trigger] h@.contains_key(t) ==> t <= max_t && h@[t] <= max_r,
        decreases trip_col@.len() - row,
    {
        let t = match get_cell(trip_col, row) {
            Some(t) => t,
            None => {
                proof {
                    lemma_trip_routes_err_stays(trip_col@, route_col@, mt, mr, (row + 1) as nat, trip_col@.len());
                }
                return Err(RaptorError::InvalidGtfs(message_with_row("Missing trip_id in trips.txt for row ", row)));
            },
        };
        let r = match get_cell(route_col, row) {
            Some(r) => r,
            None => {
                proof {
                    lemma_trip_routes_err_stays(trip_col@, route_col@, mt, mr, (row + 1) as nat, trip_col@.len());
                }
                return Err(RaptorError::InvalidGtfs(message_with_row("Missing route_id in trips.txt for row ", row)));
            },
        };
        let tid = match text_map_get(&id_map.trips, t.as_str()) {
            Some(v) => v,
            None => {
                proof {
                    lemma_trip_routes_err_stays(trip_col@, route_col@, mt, mr, (row + 1) as nat, trip_col@.len());
                }
                return Err(RaptorError::InvalidGtfs(message_with_row("Missing trip_id in trips.txt for row ", row)));
            },
        };
        let rid = match text_map_get(&id_map.routes, r.as_str()) {
            Some(v) => v,
            None => {
                proof {
                    lemma_trip_routes_err_stays(trip_col@, route_col@, mt, mr, (row + 1) as nat, trip_col@.len());
                }
                return Err(RaptorError::InvalidGtfs(message_with_row("Missing route_id in trips.txt for row ", row)));
            },
        };
        h.insert(tid, rid);
        if tid > max_t {
            max_t = tid;
        }
        if rid > max_r {
            max_r = rid;
        }
        row = row + 1;
    }
    Ok((h, max_t, max_r))
}

proof fn lemma_route_groups_beyond(tr: Map<usize, usize>, b: nat, k: nat)
    requires
        b <= k <= usize::MAX as nat + 1,
        forall|t: usize| #[trigger] tr.contains_key(t) ==> t < b,
    ensures
        route_groups(tr, k) == route_groups(tr, b),
    decreases k,
{
    if k > b {
        lemma_route_groups_beyond(tr, b, (k - 1) as nat);
    }
}

proof fn lemma_route_groups_values(tr: Map<usize, usize>, b: nat)
    ensures
        forall|r: usize| #[trigger] route_groups(tr, b).contains_key(r) ==> (exists|t: usize|
            #[trigger] tr.contains_key(t) && tr[t] == r) && route_groups(tr, b)[r].len() > 0,
    decreases b,
{
    if b > 0 {
        lemma_route_groups_values(tr, (b - 1) as nat);
        let g = route_groups(tr, (b - 1) as nat);
        let t = (b - 1) as usize;
        let n = route_groups(tr, b);
        assert forall|r: usize| #[trigger] n.contains_key(r) implies (exists|u: usize|
            #[trigger] tr.contains_key(u) && tr[u] == r) && n[r].len() > 0 by {
            if tr.contains_key(t) && r == tr[t] {
                assert(tr.contains_key(t) && tr[t] == r);
            } else {
                assert(g.contains_key(r));
            }
        }
    }
}

/// Groups trips by route: each route's trips in increasing trip id.
pub fn group_trips(tr: &HashMap<usize, usize>, max_t: usize) -> (res: HashMap<usize, Vec<usize>>)
    requires
        forall|t: usize| #[trigger] tr@.contains_key(t) ==> t <= max_t,
    ensures
        usize_groups_view(res@) == route_groups(tr@, max_t as nat + 1),
{
    let mut g: HashMap<usize, Vec<usize>> = HashMap::new();
    let mut t: usize = 0;
    proof {
        assert(usize_groups_view(g@) =~= route_groups(tr@, 0));
    }
    loop
        invariant_except_break
            usize_groups_view(g@) == route_groups(tr@, t as nat),
        invariant
            t <= max_t,
            forall|u: usize| #[trigger] tr@.contains_key(u) ==> u <= max_t,
        ensures
            usize_groups_view(g@) == route_groups(tr@, max_t as nat + 1),
        decreases max_t - t,
    {
        let ghost before = usize_groups_view(g@);
        match tr.get(&t) {
            Some(r) => {
                let mut group = match g.remove(r) {
                    Some(v) => v,
                    None => Vec::new(),
                };
                group.push(t);
                let ghost gv = group@;
                g.insert(*r, group);
                proof {
                    assert(usize_groups_view(g@) =~= before.insert(*r, gv));
                }
            },
            None => {},
        }
        assert(usize_groups_view(g@) == route_groups(tr@, t as nat + 1));
        if t == max_t {
            break;
        }
        t = t + 1;
    }
    g
}

proof fn lemma_stop_positions_below(stops: Seq<RaptorStopID>)
    requires
        stops.len() <= usize::MAX,
    ensures
        forall|s: usize| #[trigger] stop_positions(stops).contains_key(s) ==> stop_positions(stops)[s]
            < stops.len(),
    decreases stops.len(),
{
    if stops.len() > 0 {
        lemma_stop_positions_below(stops.drop_last());
        let prev = stop_positions(stops.drop_last());
        assert forall|s: usize| #[trigger] stop_positions(stops).contains_key(s) implies stop_positions(
            stops,
        )[s] < stops.len() by {
            if s != stops.last().id {
                assert(prev.contains_key(s));
            }
        }
    }
}

proof fn lemma_trip_times_len(
    trips: Seq<usize>,
    st: Map<usize, Seq<StopTimeEntry>>,
    pos: Map<usize, usize>,
    n: nat,
)
    requires
        forall|s: usize| #[trigger] pos.contains_key(s) ==> pos[s] < n,
    ensures
        route_trip_times(trips, st, pos, n) matches Ok(ts) ==> ts.len() == trips.len() && forall|i: int|
            0 <= i < ts.len() ==> (#[trigger] ts[i]).1.len() == n,
    decreases trips.len(),
{
    if trips.len() > 0 {
        lemma_trip_times_len(trips.drop_last(), st, pos, n);
        let t = trips.last();
        if st.contains_key(t) {
            lemma_placed_len(st[t], pos, n);
        }
    }
}

/// Builds one route from its trips (in increasing id): its stops are those of its first
/// trip, in stop-sequence order; `None` where the first trip has no stop times.
pub fn build_one_route(g: &Vec<usize>, st: &StopTimesByTrip) -> (res: Result<
    Option<(Vec<RaptorStopID>, Vec<RaptorTrip>)>,
    RaptorError,
>)
    requires
        g@.len() > 0,
    ensures
        match build_route_spec(g@, groups_view(st@)) {
            RouteBuild::Skip => res matches Ok(None),
            RouteBuild::Fail(m) => res matches Err(RaptorError::InvalidGtfs(x)) && x@ == m,
            RouteBuild::Built(shape) => res matches Ok(Some((stops, trips))) && stops@ == shape.0
                && trips_view(trips@) == shape.1 && forall|i: int|
                0 <= i < trips@.len() ==> (#[trigger] trips@[i]).stop_times@.len() == stops@.len(),
        },
{
    let ghost stv = groups_view(st@);
    let first = g[0];
    let entries = match st.get(&first) {
        Some(e) => e,
        None => {
            assert(!stv.contains_key(first));
            return Ok(None);
        },
    };
    assert(stv.contains_key(first) && stv[first] == entries@);
    let mut stops: Vec<RaptorStopID> = Vec::new();
    let mut i: usize = 0;
    while i < entries.len()
        invariant
            i <= entries@.len(),
            stops@ == entry_stops(entries@).take(i as int),
        decreases entries@.len() - i,
    {
        stops.push(entries[i].1);
        i = i + 1;
        proof {
            assert(stops@ =~= entry_stops(entries@).take(i as int));
        }
    }
    proof {
        assert(stops@ =~= entry_stops(entries@));
    }
    if stops.len() == 0 {
        return Ok(None);
    }
    let n = stops.len();
    let pos = positions_of(&stops);
    proof {
        lemma_stop_positions_below(stops@);
        lemma_trip_times_len(g@, stv, pos@, n as nat);
    }
    let trips = match route_trips(g, st, &pos, n) {
        Ok(t) => t,
        Err(e) => return Err(e),
    };
    if trips.len() == 0 {
        return Ok(None);
    }
    proof {
        assert forall|i: int| 0 <= i < trips@.len() implies (#[trigger] trips@[i]).stop_times@.len() == n by {
            assert(trips_view(trips@)[i] == trip_view(trips@[i]));
        }
    }
    let sorted = sort_by_departure(trips, Ghost(n as nat));
    Ok(Some((stops, sorted)))
}

/// Every stop time of every trip is at a stop below `n`.
pub open spec fn entries_below(m: Map<usize, Seq<StopTimeEntry>>, n: nat) -> bool {
    forall|t: usize, i: int|
        #[trigger] m.contains_key(t) && 0 <= i < m[t].len() ==> (#[trigger] m[t][i]).1.id < n
}

/// Every text of the map has a dense id below the number of texts.
pub open spec fn dense(m: Map<Seq<char>, usize>) -> bool {
    forall|k: Seq<char>| #[trigger] m.contains_key(k) ==> m[k] < m.dom().len()
}

proof fn lemma_upper_bound_range(s: Seq<StopTimeEntry>, k: usize)
    ensures
        0 <= upper_bound(s, k) <= s.len(),
    decreases s.len(),
{
    if s.len() > 0 {
        lemma_upper_bound_range(s.drop_first(), k);
    }
}

proof fn lemma_stop_times_below(
    c: StopTimeColumns,
    trip_ids: Map<Seq<char>, usize>,
    stop_ids: Map<Seq<char>, usize>,
    rows: nat,
)
    requires
        dense(stop_ids),
    ensures
        stop_times_upto(c, trip_ids, stop_ids, rows) matches Ok(m) ==> entries_below(
            m,
            stop_ids.dom().len(),
        ),
    decreases rows,
{
    if rows > 0 {
        lemma_stop_times_below(c, trip_ids, stop_ids, (rows - 1) as nat);
        match stop_times_upto(c, trip_ids, stop_ids, (rows - 1) as nat) {
            Ok(m) => {
                match crate::raptor::loader::row_outcome(c, trip_ids, stop_ids, rows - 1) {
                    RowOutcome::Entry { trip, entry } => {
                        let group = if m.contains_key(trip) {
                            m[trip]
                        } else {
                            Seq::empty()
                        };
                        lemma_upper_bound_range(group, entry.0);
                        group.insert_ensures(upper_bound(group, entry.0), entry);
                        let m2 = m.insert(trip, insert_by_sequence(group, entry));
                        let n = stop_ids.dom().len();
                        assert forall|t: usize, i: int|
                            #[trigger] m2.contains_key(t) && 0 <= i < m2[t].len() implies (
                            #[trigger] m2[t][i]).1.id < n by {
                            if t == trip {
                                let p = upper_bound(group, entry.0);
                                if i < p {
                                    assert(m2[t][i] == group[i]);
                                } else if i > p {
                                    assert(m2[t][i] == group[i - 1]);
                                }
                            }
                        }
                    },
                    _ => {},
                }
            },
            Err(_) => {},
        }
    }
}

proof fn lemma_routes_upto_beyond(
    groups: Map<usize, Seq<usize>>,
    st: Map<usize, Seq<StopTimeEntry>>,
    b: nat,
    k: nat,
)
    requires
        b <= k <= usize::MAX as nat + 1,
        forall|r: usize| #[trigger] groups.contains_key(r) ==> r < b,
    ensures
        routes_upto(groups, st, k) == routes_upto(groups, st, b),
    decreases k,
{
    if k > b {
        lemma_routes_upto_beyond(groups, st, b, (k - 1) as nat);
    }
}

/// `b` is above every trip id of the map, and at most one past the largest `usize`.
pub open spec fn bounds_trips(tr: Map<usize, usize>, b: nat) -> bool {
    b <= usize::MAX as nat + 1 && forall|t: usize| #[trigger] tr.contains_key(t) ==> t < b
}

/// `b` is above every route id of the map, and at most one past the largest `usize`.
pub open spec fn bounds_routes(tr: Map<usize, usize>, b: nat) -> bool {
    b <= usize::MAX as nat + 1 && forall|t: usize| #[trigger] tr.contains_key(t) ==> tr[t] < b
}

/// A bound on the trip ids of the map (any bound gives the same routes).
pub open spec fn trip_bound(tr: Map<usize, usize>) -> nat {
    choose|b: nat| #[trigger] bounds_trips(tr, b)
}

/// A bound on the route ids of the map (any bound gives the same routes).
pub open spec fn route_bound(tr: Map<usize, usize>) -> nat {
    choose|b: nat| #[trigger] bounds_routes(tr, b)
}

/// The routes of a feed: one per route id that some trip follows, in increasing id,
/// leaving out those whose first trip has no stop times; or the first failure's message.
pub open spec fn routes_of(tr: Map<usize, usize>, st: Map<usize, Seq<StopTimeEntry>>) -> Result<
    Seq<RouteShape>,
    Seq<char>,
> {
    routes_upto(route_groups(tr, trip_bound(tr)), st, route_bound(tr))
}

/// The `route_id` column of `trips.txt`, if present.
pub open spec fn trips_route_ids(feed: RaptorGtfsFeed) -> Option<Seq<Option<String>>> {
    table_column(feed.trips, TripColumns::RouteID.column_name())
}

/// The `trip_id` column of `trips.txt`, if present.
pub open spec fn trips_trip_col(feed: RaptorGtfsFeed) -> Option<Seq<Option<String>>> {
    table_column(feed.trips, TripColumns::TripID.column_name())
}

/// The built routes and routes serving stops match the routes `rs` of a feed with `n` stops.
pub open spec fn routes_built(
    routes: Seq<RaptorRoute>,
    rss: Seq<Vec<RaptorRouteServingStop>>,
    rs: Seq<RouteShape>,
    n: nat,
) -> bool {
    &&& routes_view(routes) == rs
    &&& forall|i: int| 0 <= i < routes.len() ==> (#[trigger] routes[i]).route_id.id == i
    &&& serving_view(rss) == serving(rs, n, rs.len())
}

/// The shape facts of built routes that the routing needs, for `n` stops.
pub open spec fn routes_shaped(
    routes: Seq<RaptorRoute>,
    rss: Seq<Vec<RaptorRouteServingStop>>,
    n: nat,
) -> bool {
    &&& rss.len() == n
    &&& forall|r: int, i: int|
        0 <= r < routes.len() && 0 <= i < routes[r].stops@.len() ==> (
        #[trigger] routes[r].stops@[i]).id < n
    &&& forall|r: int, t: int|
        0 <= r < routes.len() && 0 <= t < routes[r].trips@.len() ==> (
        #[trigger] routes[r].trips@[t]).stop_times@.len() == routes[r].stops@.len()
    &&& forall|s: int, k: int|
        0 <= s < rss.len() && 0 <= k < rss[s]@.len() ==> {
            let e = #[trigger] rss[s]@[k];
            &&& e.route_id.id < routes.len()
            &&& e.stop_sequence < routes[e.route_id.id as int].stops@.len()
        }
}

proof fn lemma_routes_err_stays(
    groups: Map<usize, Seq<usize>>,
    st: Map<usize, Seq<StopTimeEntry>>,
    k: nat,
    n: nat,
)
    requires
        k <= n,
        routes_upto(groups, st, k) is Err,
    ensures
        routes_upto(groups, st, n) == routes_upto(groups, st, k),
    decreases n,
{
    if n > k {
        lemma_routes_err_stays(groups, st, k, (n - 1) as nat);
    }
}

proof fn lemma_serving_prefix(a: Seq<RouteShape>, b: Seq<RouteShape>, n: nat, k: nat)
    requires
        k <= a.len(),
        k <= b.len(),
        a.take(k as int) == b.take(k as int),
    ensures
        serving(a, n, k) == serving(b, n, k),
    decreases k,
{
    if k > 0 {
        assert(a.take(k - 1) =~= a.take(k as int).take(k - 1));
        assert(b.take(k - 1) =~= b.take(k as int).take(k - 1));
        lemma_serving_prefix(a, b, n, (k - 1) as nat);
        assert(a[k - 1] == a.take(k as int)[k - 1]);
        assert(b[k - 1] == b.take(k as int)[k - 1]);
    }
}

/// What building routes from a feed and its id map gives: the first missing column or
/// bad row met, or the routes the feed's trips and stop times make, with the routes
/// serving each stop.
pub open spec fn routes_result(
    feed: RaptorGtfsFeed,
    id_map: IdMap,
    res: Result<(Vec<RaptorRoute>, Vec<Vec<RaptorRouteServingStop>>), RaptorError>,
) -> bool {
    match (trips_trip_col(feed), trips_route_ids(feed)) {
        (None, _) => res matches Err(e) && missing_column(e, "trip_id"@),
        (Some(_), None) => res matches Err(e) && missing_column(e, "route_id"@),
        (Some(tc), Some(rc)) => match trip_routes_upto(
            tc,
            rc,
            text_keyed(id_map.trips),
            text_keyed(id_map.routes),
            tc.len(),
        ) {
            Err(m) => res matches Err(RaptorError::InvalidGtfs(x)) && x@ == m,
            Ok(tr) => match first_missing_stop_times_column(feed) {
                Some(name) => res matches Err(e) && missing_column(e, name),
                None => match read_stop_times(feed, id_map) {
                    Err((o, row)) => res matches Err(e) && row_error_is(e, o, row),
                    Ok(st) => match routes_of(tr, st) {
                        Err(m) => res matches Err(RaptorError::InvalidGtfs(x)) && x@ == m,
                        Ok(rs) => res matches Ok((routes, rss)) && routes_built(
                            routes@,
                            rss@,
                            rs,
                            text_keyed(id_map.stops).dom().len(),
                        ) && routes_shaped(routes@, rss@, text_keyed(id_map.stops).dom().len()),
                    },
                },
            },
        },
    }
}

/// Building routes is reproducible: two builds from the same feed and id map both succeed
/// or both fail, and when they succeed they give the same routes, numbered alike, and
/// the same routes serving each stop.
pub proof fn lemma_build_routes_reproducible(
    feed: RaptorGtfsFeed,
    id_map: IdMap,
    r1: Result<(Vec<RaptorRoute>, Vec<Vec<RaptorRouteServingStop>>), RaptorError>,
    r2: Result<(Vec<RaptorRoute>, Vec<Vec<RaptorRouteServingStop>>), RaptorError>,
)
    requires
        routes_result(feed, id_map, r1),
        routes_result(feed, id_map, r2),
    ensures
        r1 is Ok <==> r2 is Ok,
        r1 matches Ok(a) ==> (r2 matches Ok(b) && routes_view(a.0@) == routes_view(b.0@) && serving_view(a.1@)
            == serving_view(b.1@) && a.0@.len() == b.0@.len() && forall|i: int|
            0 <= i < a.0@.len() ==> (#[trigger] a.0@[i]).route_id == b.0@[i].route_id),
{
    if let Ok(a) = r1 {
        if let Ok(b) = r2 {
            let tc = trips_trip_col(feed)->0;
            let rc = trips_route_ids(feed)->0;
            let tr = trip_routes_upto(tc, rc, text_keyed(id_map.trips), text_keyed(id_map.routes), tc.len())->Ok_0;
            let st = read_stop_times(feed, id_map)->Ok_0;
            let rs = routes_of(tr, st)->Ok_0;
            lemma_builds_agree(a.0@, a.1@, b.0@, b.1@, rs, text_keyed(id_map.stops).dom().len());
        }
    }
}

/// Builds the routes of a feed and, for every stop, the routes that serve it.
///
/// Each route id that some trip follows gives one route (in increasing route id, its
/// index being its timetable id), unless its first trip (the lowest trip id) has no stop
/// times. A route's stops are those of its first trip in stop-sequence order; every trip
/// of the route has its times placed at the positions of its stops, and the trips are
/// ordered by their first departure.
#[verifier::spinoff_prover]
pub fn build_routes(feed: &RaptorGtfsFeed, id_map: &IdMap) -> (res: Result<
    (Vec<RaptorRoute>, Vec<Vec<RaptorRouteServingStop>>),
    RaptorError,
>)
    requires
        stop_times_column(*feed, StopTimesColumns::ArrivalTime) matches Some(c)
            ==> times_fit_in_column(c),
        stop_times_column(*feed, StopTimesColumns::DepartureTime) matches Some(c)
            ==> times_fit_in_column(c),
        dense(text_keyed(id_map.stops)),
    ensures
        routes_result(*feed, *id_map, res),
{
    let trip_col = match feed.trips.column(TripColumns::TripID.name()) {
        Ok(c) => c,
        Err(e) => return Err(e),
    };
    let route_col = match feed.trips.column(TripColumns::RouteID.name()) {
        Ok(c) => c,
        Err(e) => return Err(e),
    };
    let (tr, max_t, max_r) = match trip_routes(trip_col, route_col, id_map) {
        Ok(x) => x,
        Err(e) => return Err(e),
    };
    let st = match build_stop_times_by_trip(feed, id_map) {
        Ok(s) => s,
        Err(e) => return Err(e),
    };
    let ghost stv = groups_view(st@);
    let ghost c = stop_time_columns(*feed).unwrap();
    proof {
        lemma_stop_times_below(c, text_keyed(id_map.trips), text_keyed(id_map.stops), c.trips.len());
    }
    let groups = group_trips(&tr, max_t);
    let ghost gv = usize_groups_view(groups@);
    let n = text_map_len(&id_map.stops);
    proof {
        // both bounds give the same routes as those the specification picks
        let tb = trip_bound(tr@);
        let rb = route_bound(tr@);
        assert(bounds_trips(tr@, max_t as nat + 1));
        assert(bounds_routes(tr@, max_r as nat + 1));
        assert(forall|t: usize| #[trigger] tr@.contains_key(t) ==> t < tb);
        assert(forall|t: usize| #[trigger] tr@.contains_key(t) ==> tr@[t] < rb);
        if tb <= max_t as nat + 1 {
            lemma_route_groups_beyond(tr@, tb, max_t as nat + 1);
        } else {
            lemma_route_groups_beyond(tr@, max_t as nat + 1, tb);
        }
        lemma_route_groups_values(tr@, max_t as nat + 1);
        assert forall|r: usize| #[trigger] gv.contains_key(r) implies r < rb && r <= max_r by {
            let t = choose|t: usize| #[trigger] tr@.contains_key(t) && tr@[t] == r;
        }
        if rb <= max_r as nat + 1 {
            lemma_routes_upto_beyond(gv, stv, rb, max_r as nat + 1);
        } else {
            lemma_routes_upto_beyond(gv, stv, max_r as nat + 1, rb);
        }
        assert(routes_of(tr@, stv) == routes_upto(gv, stv, max_r as nat + 1));
    }
    let mut rss: Vec<Vec<RaptorRouteServingStop>> = Vec::new();
    let mut k: usize = 0;
    while k < n
        invariant
            k <= n,
            rss@.len() == k,
            forall|i: int| 0 <= i < k ==> (#[trigger] rss@[i])@.len() == 0,
        decreases n - k,
    {
        rss.push(Vec::new());
        k = k + 1;
    }
    let mut routes: Vec<RaptorRoute> = Vec::new();
    proof {
        assert forall|i: int| 0 <= i < rss@.len() implies (#[trigger] rss@[i])@ =~= Seq::<
            RaptorRouteServingStop,
        >::empty() by {}
        assert(serving_view(rss@) =~= serving(Seq::<RouteShape>::empty(), n as nat, 0));
        assert(routes_view(routes@) =~= Seq::<RouteShape>::empty());
    }
    let ghost tc = trip_col@;
    let ghost rc = route_col@;
    let ghost mt = text_keyed(id_map.trips);
    let ghost mr = text_keyed(id_map.routes);
    let mut r: usize = 0;
    loop
        invariant_except_break
            routes_upto(gv, stv, r as nat) == Ok::<Seq<RouteShape>, Seq<char>>(routes_view(routes@)),
        invariant
            r <= max_r,
            n == text_keyed(id_map.stops).dom().len(),
            gv == usize_groups_view(groups@),
            stv == groups_view(st@),
            entries_below(stv, n as nat),
            forall|q: usize| #[trigger] gv.contains_key(q) ==> q <= max_r,
            trips_trip_col(*feed) == Some(tc),
            trips_route_ids(*feed) == Some(rc),
            trip_routes_upto(tc, rc, mt, mr, tc.len()) == Ok::<Map<usize, usize>, Seq<char>>(tr@),
            mt == text_keyed(id_map.trips),
            mr == text_keyed(id_map.routes),
            first_missing_stop_times_column(*feed) is None,
            read_stop_times(*feed, *id_map) == Ok::<
                Map<usize, Seq<StopTimeEntry>>,
                (RowOutcome, int),
            >(stv),
            routes_of(tr@, stv) == routes_upto(gv, stv, max_r as nat + 1),
            forall|i: int| 0 <= i < routes@.len() ==> (#[trigger] routes@[i]).route_id.id == i,
            serving_view(rss@) == serving(routes_view(routes@), n as nat, routes@.len()),
            routes_shaped(routes@, rss@, n as nat),
        ensures
            routes_upto(gv, stv, max_r as nat + 1) == Ok::<Seq<RouteShape>, Seq<char>>(
                routes_view(routes@),
            ),
        decreases max_r - r,
    {
        let ghost before = routes_view(routes@);
        let ghost before_routes = routes@;
        match groups.get(&r) {
            Some(g) => {
                assert(gv.contains_key(r) && gv[r] == g@);
                if g.len() > 0 {
                    match build_one_route(g, &st) {
                        Ok(None) => {},
                        Err(e) => {
                            proof {
                                lemma_routes_err_stays(gv, stv, r as nat + 1, max_r as nat + 1);
                            }
                            return Err(e);
                        },
                        Ok(Some((stops, trips))) => {
                            let ri = routes.len();
                            let ghost rss_before = serving_view(rss@);
                            let ghost rss_before_vec = rss@;
                            proof {
                                let first = g@[0];
                                assert(stv.contains_key(first));
                                assert forall|i: int| 0 <= i < stops@.len() implies (#[trigger] stops@[i]).id < n by {
                                    assert(stops@[i] == stv[first][i].1);
                                }
                            }
                            let mut p: usize = 0;
                            while p < stops.len()
                                invariant
                                    p <= stops@.len(),
                                    ri == routes@.len(),
                                    routes@ == before_routes,
                                    rss@.len() == n,
                                    routes_shaped(routes@, rss_before_vec, n as nat),
                                    forall|i: int| 0 <= i < stops@.len() ==> (#[trigger] stops@[i]).id < n,
                                    serving_view(rss@) == serve_stops(rss_before, stops@, ri, p as nat),
                                    rss_before == serving_view(rss_before_vec),
                                    forall|s: int, q: int|
                                        0 <= s < rss@.len() && 0 <= q < rss@[s]@.len() ==> {
                                            let e = #[trigger] rss@[s]@[q];
                                            &&& e.route_id.id <= ri
                                            &&& e.route_id.id < ri ==> e.stop_sequence < routes@[e.route_id.id as int].stops@.len()
                                            &&& e.route_id.id == ri ==> e.stop_sequence < stops@.len()
                                        },
                                decreases stops@.len() - p,
                            {
                                let sid = stops[p].id;
                                let ghost sv = serving_view(rss@);
                                let ghost old_rss = rss@;
                                rss[sid].push(RaptorRouteServingStop {
                                    route_id: TimetableRouteID::new(ri),
                                    stop_sequence: p,
                                });
                                p = p + 1;
                                proof {
                                    assert(serving_view(rss@) =~= serve_stops(rss_before, stops@, ri, p as nat));
                                    assert forall|s: int, q: int|
                                        0 <= s < rss@.len() && 0 <= q < rss@[s]@.len() implies {
                                            let e = #[trigger] rss@[s]@[q];
                                            &&& e.route_id.id <= ri
                                            &&& e.route_id.id < ri ==> e.stop_sequence < routes@[e.route_id.id as int].stops@.len()
                                            &&& e.route_id.id == ri ==> e.stop_sequence < stops@.len()
                                        } by {
                                        if s != sid as int || q < old_rss[s]@.len() {
                                            assert(rss@[s]@[q] == old_rss[s]@[q]);
                                        }
                                    }
                                }
                            }
                            let ghost shape = (stops@, trips_view(trips@));
                            routes.push(RaptorRoute {
                                route_id: TimetableRouteID::new(ri),
                                stops,
                                trips,
                            });
                            proof {
                                assert(routes_view(routes@) =~= before.push(shape));
                                assert(routes_view(routes@).take(ri as int) =~= before.take(ri as int));
                                assert(before.take(ri as int) =~= before);
                                lemma_serving_prefix(routes_view(routes@), before, n as nat, ri as nat);
                                assert(routes_view(routes@)[ri as int] == shape);
                                assert forall|q: int, i: int|
                                    0 <= q < routes@.len() && 0 <= i < routes@[q].stops@.len() implies (
                                    #[trigger] routes@[q].stops@[i]).id < n by {
                                    if q < ri {
                                        assert(routes@[q] == before_routes[q]);
                                    } else {
                                        assert(routes@[q].stops@ == shape.0);
                                    }
                                }
                                assert forall|q: int, t: int|
                                    0 <= q < routes@.len() && 0 <= t < routes@[q].trips@.len() implies (
                                    #[trigger] routes@[q].trips@[t]).stop_times@.len() == routes@[q].stops@.len() by {
                                    if q < ri {
                                        assert(routes@[q] == before_routes[q]);
                                    }
                                }
                                assert forall|s: int, q: int|
                                    0 <= s < rss@.len() && 0 <= q < rss@[s]@.len() implies {
                                        let e = #[trigger] rss@[s]@[q];
                                        &&& e.route_id.id < routes@.len()
                                        &&& e.stop_sequence < routes@[e.route_id.id as int].stops@.len()
                                    } by {
                                    let e = rss@[s]@[q];
                                    if e.route_id.id < ri {
                                        assert(routes@[e.route_id.id as int] == before_routes[e.route_id.id as int]);
                                    }
                                }
                                assert forall|i: int| 0 <= i < routes@.len() implies (#[trigger] routes@[i]).route_id.id == i by {
                                    if i < ri {
                                        assert(routes@[i] == before_routes[i]);
                                    }
                                }
                            }
                        },
                    }
                }
            },
            None => {
                assert(!gv.contains_key(r));
            },
        }
        assert(routes_upto(gv, stv, r as nat + 1) == Ok::<Seq<RouteShape>, Seq<char>>(routes_view(routes@)));
        if r == max_r {
            break;
        }
        r = r + 1;
    }
    Ok((routes, rss))
}

/// Trips ordered by their departure from the route's first stop.
pub open spec fn departures_ordered(ts: Seq<TripTimes>) -> bool {
    forall|i: int, j: int|
        0 <= i < j < ts.len() ==> first_departure(#[trigger] ts[i]) <= first_departure(#[trigger] ts[j])
}

proof fn lemma_departure_bound_splits(s: Seq<TripTimes>, d: Seconds)
    requires
        departures_ordered(s),
    ensures
        0 <= departure_bound(s, d) <= s.len(),
        forall|j: int| 0 <= j < departure_bound(s, d) ==> first_departure(#[trigger] s[j]) <= d,
        forall|j: int| departure_bound(s, d) <= j < s.len() ==> first_departure(#[trigger] s[j]) > d,
    decreases s.len(),
{
    if s.len() > 0 {
        let t = s.drop_first();
        assert forall|i: int, j: int| 0 <= i < j < t.len() implies first_departure(#[trigger] t[i])
            <= first_departure(#[trigger] t[j]) by {
            assert(t[i] == s[i + 1] && t[j] == s[j + 1]);
        }
        lemma_departure_bound_splits(t, d);
        if first_departure(s[0]) > d {
            assert forall|j: int| 0 <= j < s.len() implies first_departure(#[trigger] s[j]) > d by {
                if j > 0 {
                    assert(first_departure(s[0]) <= first_departure(s[j]));
                }
            }
        } else {
            assert forall|j: int| 0 <= j < departure_bound(s, d) implies first_departure(#[trigger] s[j]) <= d by {
                if j > 0 {
                    assert(s[j] == t[j - 1]);
                }
            }
            assert forall|j: int| departure_bound(s, d) <= j < s.len() implies first_departure(#[trigger] s[j]) > d by {
                assert(s[j] == t[j - 1]);
            }
        }
    }
}

/// Ordering trips by departure gives trips ordered by departure, and keeps every trip.
pub proof fn lemma_by_departure_ordered(s: Seq<TripTimes>)
    ensures
        departures_ordered(by_departure(s)),
        by_departure(s).to_multiset() == s.to_multiset(),
    decreases s.len(),
{
    if s.len() > 0 {
        let done = by_departure(s.drop_last());
        lemma_by_departure_ordered(s.drop_last());
        let x = s.last();
        lemma_departure_bound_splits(done, first_departure(x));
        let p = departure_bound(done, first_departure(x));
        let r = done.insert(p, x);
        done.insert_ensures(p, x);
        assert forall|i: int, j: int| 0 <= i < j < r.len() implies first_departure(#[trigger] r[i])
            <= first_departure(#[trigger] r[j]) by {
            if i < p && j < p {
            } else if i < p && j == p {
            } else if i < p {
                assert(r[j] == done[j - 1]);
            } else if i == p {
                assert(r[j] == done[j - 1]);
            } else {
                assert(r[i] == done[i - 1] && r[j] == done[j - 1]);
            }
        }
        assert(done.subrange(0, p) + done.subrange(p, done.len() as int) =~= done);
        vstd::seq_lib::lemma_multiset_commutative(done.subrange(0, p).push(x), done.subrange(p, done.len() as int));
        vstd::seq_lib::lemma_multiset_commutative(done.subrange(0, p), done.subrange(p, done.len() as int));
        done.subrange(0, p).to_multiset_ensures();
        s.drop_last().to_multiset_ensures();
        assert(s.drop_last().push(x) =~= s);
    }
}

proof fn lemma_routes_upto_ordered(
    groups: Map<usize, Seq<usize>>,
    st: Map<usize, Seq<StopTimeEntry>>,
    k: nat,
)
    ensures
        routes_upto(groups, st, k) matches Ok(rs) ==> forall|i: int|
            0 <= i < rs.len() ==> departures_ordered(#[trigger] rs[i].1),
    decreases k,
{
    if k > 0 {
        lemma_routes_upto_ordered(groups, st, (k - 1) as nat);
        let r = (k - 1) as usize;
        if groups.contains_key(r) && groups[r].len() > 0 {
            let g = groups[r];
            let first = g[0];
            if st.contains_key(first) {
                let stops = entry_stops(st[first]);
                match route_trip_times(g, st, stop_positions(stops), stops.len()) {
                    Ok(ts) => lemma_by_departure_ordered(ts),
                    Err(_) => {},
                }
            }
        }
    }
}

/// The trips of every route of a feed are ordered by their departure from the route's
/// first stop, as the routing's trip search assumes.
pub proof fn lemma_routes_ordered_by_departure(tr: Map<usize, usize>, st: Map<usize, Seq<StopTimeEntry>>)
    ensures
        routes_of(tr, st) matches Ok(rs) ==> forall|i: int|
            0 <= i < rs.len() ==> departures_ordered(#[trigger] rs[i].1),
{
    lemma_routes_upto_ordered(route_groups(tr, trip_bound(tr)), st, route_bound(tr));
}

/// Building routes is reproducible: two builds that match the same routes of a feed give
/// the same routes and the same routes serving each stop.
pub proof fn lemma_builds_agree(
    routes1: Seq<RaptorRoute>,
    serving1: Seq<Vec<RaptorRouteServingStop>>,
    routes2: Seq<RaptorRoute>,
    serving2: Seq<Vec<RaptorRouteServingStop>>,
    rs: Seq<RouteShape>,
    n: nat,
)
    requires
        routes_built(routes1, serving1, rs, n),
        routes_built(routes2, serving2, rs, n),
    ensures
        routes_view(routes1) == routes_view(routes2),
        serving_view(serving1) == serving_view(serving2),
        routes1.len() == routes2.len(),
        forall|i: int| 0 <= i < routes1.len() ==> (#[trigger] routes1[i]).route_id == routes2[i].route_id,
{
    assert(routes_view(routes1).len() == routes1.len());
    assert(routes_view(routes2).len() == routes2.len());
}

} // verus!
