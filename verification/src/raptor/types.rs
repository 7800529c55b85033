use vstd::prelude::*;

use crate::datetime::Seconds;
use crate::errors::RaptorError;

verus! {

/// Arrival time used for a stop that has not been reached.
pub const INFINITY: Seconds = usize::MAX;

/// Dense identifier of a route in the timetable built by the loader.
#[derive(Debug, Clone, Copy, PartialEq, Eq, Structural, Hash)]
pub struct RaptorRouteID {
    pub id: usize,
}

impl RaptorRouteID {
    pub fn new(id: usize) -> (res: Self)
        ensures
            res.id == id,
    {
        Self { id }
    }
}

/// Dense identifier of a stop; it is also the stop's index in every per-stop table.
#[derive(Debug, Clone, Copy, PartialEq, Eq, Structural, Hash)]
pub struct RaptorStopID {
    pub id: usize,
}

impl RaptorStopID {
    pub fn new(id: usize) -> (res: Self)
        ensures
            res.id == id,
    {
        Self { id }
    }
}

/// Dense identifier of a trip.
#[derive(Debug, Clone, Copy, PartialEq, Eq, Structural, Hash)]
pub struct RaptorTripID {
    pub id: usize,
}

impl RaptorTripID {
    pub fn new(id: usize) -> (res: Self)
        ensures
            res.id == id,
    {
        Self { id }
    }
}

/// Index of a route inside `RaptorTimetable::routes`.
#[derive(Debug, Clone, Copy, PartialEq, Eq, Structural, Hash)]
pub struct TimetableRouteID {
    pub id: usize,
}

impl TimetableRouteID {
    pub fn new(id: usize) -> (res: Self)
        ensures
            res.id == id,
    {
        Self { id }
    }
}

#[derive(Debug, Clone)]
pub struct RaptorStop {
    pub stop_id: RaptorStopID,
    pub name: String,
}

/// Arrival and departure of one trip at one stop of its route.
#[derive(Debug, Clone, Copy, PartialEq, Eq, Structural, Hash)]
pub struct RaptorStopTime {
    pub arrival: Seconds,
    pub departure: Seconds,
}

/// A trip: its stop times, one per stop of the route, in route order.
#[derive(Debug, Clone)]
pub struct RaptorTrip {
    pub trip_id: RaptorTripID,
    pub stop_times: Vec<RaptorStopTime>,
}

/// A route: the stops it serves in order, and its trips ordered by departure.
#[derive(Debug, Clone)]
pub struct RaptorRoute {
    pub route_id: TimetableRouteID,
    pub stops: Vec<RaptorStopID>,
    pub trips: Vec<RaptorTrip>,
}

/// A walk from one stop to another.
#[derive(Debug, Clone, Copy, PartialEq, Eq, Structural, Hash)]
pub struct RaptorTransfer {
    pub to_stop: RaptorStopID,
    pub walk_time: Seconds,
}

/// A route that serves a stop, with the stop's position along that route.
#[derive(Debug, Clone, Copy, PartialEq, Eq, Structural, Hash)]
pub struct RaptorRouteServingStop {
    pub route_id: TimetableRouteID,
    pub stop_sequence: usize,
}

/// Everything the routing algorithms read. Per-stop tables are indexed by `RaptorStopID::id`.
#[derive(Debug, Clone)]
pub struct RaptorTimetable {
    pub stops: Vec<RaptorStop>,
    pub routes: Vec<RaptorRoute>,
    pub transfers: Vec<Vec<RaptorTransfer>>,
    pub routes_serving_stops: Vec<Vec<RaptorRouteServingStop>>,
}

impl RaptorTimetable {
    pub open spec fn num_stops(&self) -> nat {
        self.stops@.len()
    }

    pub open spec fn departure_at(&self, r: int, t: int, i: int) -> Seconds {
        self.routes@[r].trips@[t].stop_times@[i].departure
    }

    pub open spec fn arrival_at(&self, r: int, t: int, i: int) -> Seconds {
        self.routes@[r].trips@[t].stop_times@[i].arrival
    }

    /// Every index stored in the timetable points inside the table it refers to, and
    /// every trip has one stop time per stop of its route.
    pub open spec fn wf(&self) -> bool {
        &&& self.transfers@.len() == self.stops@.len()
        &&& self.routes_serving_stops@.len() == self.stops@.len()
        &&& forall|r: int, i: int|
            0 <= r < self.routes@.len() && 0 <= i < self.routes@[r].stops@.len() ==> (
            #[trigger] self.routes@[r].stops@[i]).id < self.stops@.len()
        &&& forall|r: int, t: int|
            0 <= r < self.routes@.len() && 0 <= t < self.routes@[r].trips@.len() ==> (
            #[trigger] self.routes@[r].trips@[t]).stop_times@.len() == self.routes@[r].stops@.len()
        &&& forall|s: int, k: int|
            0 <= s < self.routes_serving_stops@.len() && 0 <= k
                < self.routes_serving_stops@[s]@.len() ==> {
                let e = #[trigger] self.routes_serving_stops@[s]@[k];
                &&& e.route_id.id < self.routes@.len()
                &&& e.stop_sequence < self.routes@[e.route_id.id as int].stops@.len()
            }
        &&& forall|s: int, k: int|
            0 <= s < self.transfers@.len() && 0 <= k < self.transfers@[s]@.len() ==> (
            #[trigger] self.transfers@[s]@[k]).to_stop.id < self.stops@.len()
    }

    /// Along every trip, a departure from a stop is no later than the arrival at any
    /// later stop of the same trip.
    pub open spec fn trips_forward_in_time(&self) -> bool {
        forall|r: int, t: int, i: int, j: int|
            0 <= r < self.routes@.len() && 0 <= t < self.routes@[r].trips@.len() && 0 <= i < j
                < self.routes@[r].trips@[t].stop_times@.len() ==> #[trigger] self.departure_at(
                r,
                t,
                i,
            ) <= #[trigger] self.arrival_at(r, t, j)
    }

    /// No trip leaves a stop at `INFINITY`, the time that stands for "never".
    pub open spec fn departures_finite(&self) -> bool {
        forall|r: int, t: int, i: int|
            0 <= r < self.routes@.len() && 0 <= t < self.routes@[r].trips@.len() && 0 <= i
                < self.routes@[r].trips@[t].stop_times@.len() ==> #[trigger] self.departure_at(r, t, i) < INFINITY
    }

    /// Adding any walk time to any time of the timetable (or to `start`) fits in `Seconds`.
    pub open spec fn times_fit(&self, start: Seconds) -> bool {
        &&& forall|s: int, k: int|
            0 <= s < self.transfers@.len() && 0 <= k < self.transfers@[s]@.len() ==> start
                + (#[trigger] self.transfers@[s]@[k]).walk_time <= usize::MAX
        &&& forall|r: int, t: int, i: int, s: int, k: int|
            0 <= r < self.routes@.len() && 0 <= t < self.routes@[r].trips@.len() && 0 <= i
                < self.routes@[r].trips@[t].stop_times@.len() && 0 <= s < self.transfers@.len()
                && 0 <= k < self.transfers@[s]@.len() ==> #[trigger] self.arrival_at(r, t, i)
                + (#[trigger] self.transfers@[s]@[k]).walk_time <= usize::MAX
    }

    /// Finds the earliest trip for a given route, for a given stop sequence index and a
    /// given departure time: the first trip in the route's order whose departure there is
    /// at or after `earliest_departure`.
    pub fn earliest_trip(
        &self,
        route_id: TimetableRouteID,
        stop_idx: usize,
        earliest_departure: Seconds,
    ) -> (res: Option<usize>)
        requires
            route_id.id < self.routes@.len() ==> forall|t: int|
                0 <= t < self.routes@[route_id.id as int].trips@.len() ==> stop_idx
                    < (#[trigger] self.routes@[route_id.id as int].trips@[t]).stop_times@.len(),
        ensures
            match res {
                Some(t) => {
                    &&& route_id.id < self.routes@.len()
                    &&& t < self.routes@[route_id.id as int].trips@.len()
                    &&& self.departure_at(route_id.id as int, t as int, stop_idx as int)
                        >= earliest_departure
                    &&& forall|u: int|
                        0 <= u < t ==> #[trigger] self.departure_at(
                            route_id.id as int,
                            u,
                            stop_idx as int,
                        ) < earliest_departure
                },
                None => route_id.id >= self.routes@.len() || forall|u: int|
                    0 <= u < self.routes@[route_id.id as int].trips@.len() ==> #[trigger] self.departure_at(
                        route_id.id as int,
                        u,
                        stop_idx as int,
                    ) < earliest_departure,
            },
    {
        if route_id.id >= self.routes.len() {
            return None;
        }
        let route = &self.routes[route_id.id];
        let mut t: usize = 0;
        while t < route.trips.len()
            invariant
                route == &self.routes@[route_id.id as int],
                route_id.id < self.routes@.len(),
                t <= route.trips@.len(),
                forall|u: int|
                    0 <= u < route.trips@.len() ==> stop_idx
                        < (#[trigger] route.trips@[u]).stop_times@.len(),
                forall|u: int|
                    0 <= u < t ==> #[trigger] self.departure_at(
                        route_id.id as int,
                        u,
                        stop_idx as int,
                    ) < earliest_departure,
            decreases route.trips@.len() - t,
        {
            if route.trips[t].stop_times[stop_idx].departure >= earliest_departure {
                return Some(t);
            }
            t = t + 1;
        }
        None
    }

    /// Arrival of trip `trip_idx` of the route at stop position `stop_idx`.
    pub fn get_arrival_time(&self, route_id: TimetableRouteID, trip_idx: usize, stop_idx: usize) -> (res:
        Seconds)
        requires
            route_id.id < self.routes@.len(),
            trip_idx < self.routes@[route_id.id as int].trips@.len(),
            stop_idx < self.routes@[route_id.id as int].trips@[trip_idx as int].stop_times@.len(),
        ensures
            res == self.arrival_at(route_id.id as int, trip_idx as int, stop_idx as int),
    {
        self.routes[route_id.id].trips[trip_idx].stop_times[stop_idx].arrival
    }

    /// Departure of trip `trip_idx` of the route at stop position `stop_idx`.
    pub fn get_departure_time(
        &self,
        route_id: TimetableRouteID,
        trip_idx: usize,
        stop_idx: usize,
    ) -> (res: Seconds)
        requires
            route_id.id < self.routes@.len(),
            trip_idx < self.routes@[route_id.id as int].trips@.len(),
            stop_idx < self.routes@[route_id.id as int].trips@[trip_idx as int].stop_times@.len(),
        ensures
            res == self.departure_at(route_id.id as int, trip_idx as int, stop_idx as int),
    {
        self.routes[route_id.id].trips[trip_idx].stop_times[stop_idx].departure
    }
}

/// One leg of a journey: a ride on a trip, or a walk when `trip_id` is `None`.
#[derive(Debug, Clone, Copy, PartialEq, Eq, Structural, Hash)]
pub struct Leg {
    pub origin_stop: RaptorStopID,
    pub destination_stop: RaptorStopID,
    pub leg_start_time: Seconds,
    pub leg_end_time: Seconds,
    pub trip_id: Option<RaptorTripID>,
}

/// A leg that the timetable offers: a ride on some trip between two positions of its
/// route, with the trip's own departure and arrival times, or a walk along a transfer
/// that takes exactly its walk time.
pub open spec fn leg_in_timetable(tt: &RaptorTimetable, leg: Leg) -> bool {
    match leg.trip_id {
        Some(trip) => exists|r: int, t: int, i: int, j: int|
            #![trigger tt.departure_at(r, t, i), tt.arrival_at(r, t, j)]
            0 <= r < tt.routes@.len() && 0 <= t < tt.routes@[r].trips@.len() && 0 <= i < j
                < tt.routes@[r].stops@.len() && tt.routes@[r].trips@[t].trip_id == trip
                && tt.routes@[r].stops@[i] == leg.origin_stop && tt.routes@[r].stops@[j]
                == leg.destination_stop && tt.departure_at(r, t, i) == leg.leg_start_time
                && tt.arrival_at(r, t, j) == leg.leg_end_time,
        None => 0 <= leg.origin_stop.id < tt.transfers@.len() && exists|k: int|
            0 <= k < tt.transfers@[leg.origin_stop.id as int]@.len() && (#[trigger] tt.transfers@[leg.origin_stop.id as int]@[k]).to_stop
                == leg.destination_stop && leg.leg_end_time == leg.leg_start_time
                + tt.transfers@[leg.origin_stop.id as int]@[k].walk_time,
    }
}

/// Number of legs that ride a trip.
pub open spec fn count_rides(legs: Seq<Leg>) -> nat
    decreases legs.len(),
{
    if legs.len() == 0 {
        0
    } else {
        count_rides(legs.drop_last()) + if legs.last().trip_id is Some {
            1nat
        } else {
            0nat
        }
    }
}

/// A journey that leaves `origin` no earlier than `departure`, whose legs are offered by
/// the timetable and follow one another in place and time, and that ends at `stop` at
/// time `arrival`. The empty journey stays at the origin.
pub open spec fn feasible_journey(
    tt: &RaptorTimetable,
    origin: RaptorStopID,
    departure: Seconds,
    legs: Seq<Leg>,
    stop: RaptorStopID,
    arrival: Seconds,
) -> bool {
    if legs.len() == 0 {
        stop == origin && arrival == departure
    } else {
        &&& legs[0].origin_stop == origin
        &&& legs[0].leg_start_time >= departure
        &&& forall|i: int| 0 <= i < legs.len() ==> leg_in_timetable(tt, #[trigger] legs[i])
        &&& forall|i: int|
            0 <= i < legs.len() - 1 ==> (#[trigger] legs[i + 1]).origin_stop
                == legs[i].destination_stop && legs[i + 1].leg_start_time >= legs[i].leg_end_time
        &&& legs.last().destination_stop == stop
        &&& legs.last().leg_end_time == arrival
    }
}

/// Some feasible journey with at most `max_rides` rides reaches `stop` at `arrival`.
pub open spec fn attainable(
    tt: &RaptorTimetable,
    origin: RaptorStopID,
    departure: Seconds,
    stop: RaptorStopID,
    arrival: Seconds,
    max_rides: nat,
) -> bool {
    exists|legs: Seq<Leg>|
        #[trigger] feasible_journey(tt, origin, departure, legs, stop, arrival) && count_rides(
            legs,
        ) <= max_rides
}

/// Appending a leg to a journey adds one ride exactly when the leg rides a trip.
pub proof fn lemma_count_rides_push(legs: Seq<Leg>, leg: Leg)
    ensures
        count_rides(legs.push(leg)) == count_rides(legs) + if leg.trip_id is Some {
            1nat
        } else {
            0nat
        },
{
    assert(legs.push(leg).drop_last() =~= legs);
}

/// A feasible journey extended by a timetable leg that starts where and after it ends
/// is feasible.
pub proof fn lemma_extend_journey(
    tt: &RaptorTimetable,
    origin: RaptorStopID,
    departure: Seconds,
    legs: Seq<Leg>,
    stop: RaptorStopID,
    arrival: Seconds,
    leg: Leg,
)
    requires
        feasible_journey(tt, origin, departure, legs, stop, arrival),
        leg_in_timetable(tt, leg),
        leg.origin_stop == stop,
        leg.leg_start_time >= arrival,
    ensures
        feasible_journey(
            tt,
            origin,
            departure,
            legs.push(leg),
            leg.destination_stop,
            leg.leg_end_time,
        ),
{
    let nl = legs.push(leg);
    if legs.len() == 0 {
        assert(nl[0] == leg);
    } else {
        assert(nl[0] == legs[0]);
        assert forall|i: int| 0 <= i < nl.len() implies leg_in_timetable(tt, #[trigger] nl[i]) by {
            if i < legs.len() {
                assert(nl[i] == legs[i]);
            }
        }
        assert forall|i: int| 0 <= i < nl.len() - 1 implies (#[trigger] nl[i + 1]).origin_stop
            == nl[i].destination_stop && nl[i + 1].leg_start_time >= nl[i].leg_end_time by {
            if i < legs.len() - 1 {
                assert(nl[i + 1] == legs[i + 1]);
                assert(nl[i] == legs[i]);
            } else {
                assert(nl[i] == legs.last());
            }
        }
    }
}

/// A full journey between two stops.
#[derive(Debug, Clone)]
pub struct Journey {
    pub origin: RaptorStopID,
    pub destination: RaptorStopID,
    pub departure_time: Seconds,
    pub legs: Vec<Leg>,
}

/// Arrival of a journey made of `legs`: the end of its last leg, or `INFINITY` when it
/// has none.
pub open spec fn legs_arrival(legs: Seq<Leg>) -> Seconds {
    if legs.len() == 0 {
        INFINITY
    } else {
        legs.last().leg_end_time
    }
}

impl Journey {
    pub fn new(origin: RaptorStopID, destination: RaptorStopID, departure_time: Seconds, legs: Vec<
        Leg,
    >) -> (res: Self)
        ensures
            res.origin == origin,
            res.destination == destination,
            res.departure_time == departure_time,
            res.legs@ == legs@,
    {
        Self { origin, destination, departure_time, legs }
    }

    /// The overall arrival time: the end of the last leg, or `INFINITY` when there is none.
    pub fn arrival_time(&self) -> (res: Seconds)
        ensures
            res == legs_arrival(self.legs@),
    {
        if self.legs.len() == 0 {
            INFINITY
        } else {
            self.legs[self.legs.len() - 1].leg_end_time
        }
    }

    /// The number of transfers: one less than the number of rides, and zero when there is
    /// no ride.
    pub fn num_transfers(&self) -> (res: usize)
        ensures
            res == if count_rides(self.legs@) == 0 {
                0
            } else {
                count_rides(self.legs@) - 1
            },
    {
        let mut rides: usize = 0;
        let mut i: usize = 0;
        while i < self.legs.len()
            invariant
                i <= self.legs@.len(),
                rides == count_rides(self.legs@.take(i as int)),
                rides <= i,
            decreases self.legs@.len() - i,
        {
            proof {
                assert(self.legs@.take(i + 1).drop_last() =~= self.legs@.take(i as int));
            }
            if self.legs[i].trip_id.is_some() {
                rides = rides + 1;
            }
            i = i + 1;
        }
        proof {
            assert(self.legs@.take(i as int) =~= self.legs@);
        }
        rides.saturating_sub(1)
    }

    /// Time elapsed between the departure and the arrival. A journey with no legs takes no
    /// time when it ends where it starts, and is `DestinationUnreachable` otherwise.
    pub fn total_travel_time(&self) -> (res: Result<Seconds, RaptorError>)
        requires
            legs_arrival(self.legs@) != INFINITY ==> legs_arrival(self.legs@)
                >= self.departure_time,
        ensures
            self.legs@.len() == 0 && self.origin == self.destination ==> res == Ok::<Seconds, RaptorError>(0),
            self.legs@.len() == 0 && self.origin != self.destination ==> res == Err::<Seconds, RaptorError>(
                RaptorError::DestinationUnreachable {
                    origin: self.origin,
                    destination: self.destination,
                    departure_time: self.departure_time,
                },
            ),
            self.legs@.len() > 0 && legs_arrival(self.legs@) == INFINITY ==> res == Err::<Seconds, RaptorError>(
                RaptorError::DestinationUnreachable {
                    origin: self.origin,
                    destination: self.destination,
                    departure_time: self.departure_time,
                },
            ),
            self.legs@.len() > 0 && legs_arrival(self.legs@) != INFINITY ==> res == Ok::<Seconds, RaptorError>(
                (legs_arrival(self.legs@) - self.departure_time) as Seconds,
            ),
    {
        if self.legs.len() == 0 && self.origin == self.destination {
            return Ok(0);
        }
        let departure_time = self.departure_time;
        let arrival_time = self.arrival_time();
        if arrival_time == INFINITY {
            Err(
                RaptorError::DestinationUnreachable {
                    origin: self.origin,
                    destination: self.destination,
                    departure_time: self.departure_time,
                },
            )
        } else {
            Ok(arrival_time - departure_time)
        }
    }
}

/// What a query answers: the earliest arrival, the time it takes, and the journey when
/// one was reconstructed.
#[derive(Debug, Clone)]
pub struct RaptorQueryResult {
    pub earliest_arrival_time: Seconds,
    pub travel_time: Seconds,
    pub diary: Option<Journey>,
}

} // verus!
