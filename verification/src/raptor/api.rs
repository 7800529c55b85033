use vstd::prelude::*;

use crate::datetime::Seconds;
use crate::errors::RaptorError;
use crate::raptor::cache::RaptorCache;
use crate::raptor::feed::{cell, get_cell, table_column, GtfsTable, RaptorGtfsFeed};
use crate::raptor::handler::{query_answer, RaptorHandler};
use crate::raptor::ids::{
    inverse, injective, text_keyed, text_map_get, texts, IdMap, Invertible, ReverseIdMap,
};
use crate::datetime::{gtfs_time_text, seconds_to_gtfs_time};
use crate::raptor::loader::missing_column;
use crate::raptor::types::{
    attainable, count_rides, feasible_journey, Journey, Leg, RaptorQueryResult, RaptorStopID, RaptorTimetable, RaptorTripID,
    INFINITY,
};
use crate::text::same_text;

verus! {

/// The travel time of a query's answer, or its error.
pub open spec fn travel_of(q: Result<RaptorQueryResult, RaptorError>) -> Result<Seconds, RaptorError> {
    match q {
        Ok(r) => Ok(r.travel_time),
        Err(e) => Err(e),
    }
}

/// The journey of a query's answer, or its error.
pub open spec fn diary_of(q: Result<RaptorQueryResult, RaptorError>) -> Result<Journey, RaptorError> {
    match q {
        Ok(r) => match r.diary {
            Some(j) => Ok(j),
            None => Err(RaptorError::EmptyJourney),
        },
        Err(e) => Err(e),
    }
}

/// Every leg of the journey ends no earlier than it starts.
pub open spec fn legs_in_order(j: Journey) -> bool {
    forall|i: int| 0 <= i < j.legs@.len() ==> (#[trigger] j.legs@[i]).leg_start_time <= j.legs@[i].leg_end_time
}

/// Routing on one GTFS feed: the feed, its timetable and the maps between GTFS ids and
/// dense ids. The search state is kept between queries and cleared before each.
pub struct Raptor {
    gtfs_dir: String,
    cache: RaptorCache,
    feed: RaptorGtfsFeed,
    id_map: IdMap,
    reverse_id_map: ReverseIdMap,
    raptor_handler: RaptorHandler,
}

/// The message of a stop id the feed does not hold.
pub open spec fn unknown_stop_message(id: Seq<char>) -> Seq<char> {
    "Unknown stop "@ + id
}

/// Index of the first row whose cell holds `text`, if any.
pub open spec fn first_row(col: Seq<Option<String>>, text: Seq<char>) -> Option<int>
    decreases col.len(),
{
    if col.len() == 0 {
        None
    } else {
        match first_row(col.drop_last(), text) {
            Some(i) => Some(i),
            None => if col.last() matches Some(s) && s@ == text {
                Some(col.len() - 1)
            } else {
                None
            },
        }
    }
}

proof fn lemma_first_row(col: Seq<Option<String>>, text: Seq<char>, k: int)
    requires
        0 <= k <= col.len(),
        forall|j: int| 0 <= j < k ==> !(#[trigger] col[j] matches Some(s) && s@ == text),
    ensures
        k < col.len() && (col[k] matches Some(s) && s@ == text) ==> first_row(col, text) == Some(k),
        k == col.len() ==> first_row(col, text) is None,
    decreases col.len(),
{
    if col.len() > 0 {
        if k == col.len() {
            lemma_first_row(col.drop_last(), text, k - 1);
        } else {
            lemma_first_row(col.drop_last(), text, k);
        }
    }
}

/// Finds the first row whose cell holds `text`.
fn find_row(col: &Vec<Option<String>>, text: &str) -> (res: Option<usize>)
    ensures
        match res {
            Some(r) => first_row(col@, text@) == Some(r as int) && r < col@.len(),
            None => first_row(col@, text@) is None,
        },
{
    let mut i: usize = 0;
    while i < col.len()
        invariant
            i <= col@.len(),
            forall|j: int| 0 <= j < i ==> !(#[trigger] col@[j] matches Some(s) && s@ == text@),
        decreases col@.len() - i,
    {
        match &col[i] {
            Some(s) => {
                if same_text(s.as_str(), text) {
                    proof {
                        lemma_first_row(col@, text@, i as int);
                    }
                    return Some(i);
                }
            },
            None => {},
        }
        i = i + 1;
    }
    proof {
        lemma_first_row(col@, text@, i as int);
    }
    None
}

/// The message of a lookup that found nothing in the reverse maps.
pub open spec fn lost_id_message() -> Seq<char> {
    "Something bad happened when making human readable"@
}

/// What looking up a name gives.
pub enum NameOutcome {
    Found(Seq<char>),
    /// The dense id is not in the reverse map.
    Lost,
    /// A column (named) is missing.
    MissingColumn(Seq<char>),
    /// The feed does not hold what the lookup needs (the message says what).
    Invalid(Seq<char>),
}

/// Whether `e` is the error of a failed lookup `o`.
pub open spec fn name_error_is(e: RaptorError, o: NameOutcome) -> bool {
    match o {
        NameOutcome::Found(_) => false,
        NameOutcome::Lost => e matches RaptorError::UnknownError(m) && m@ == lost_id_message(),
        NameOutcome::MissingColumn(n) => missing_column(e, n),
        NameOutcome::Invalid(msg) => e matches RaptorError::InvalidGtfs(m) && m@ == msg,
    }
}

/// The name of a stop: its dense id back to its GTFS id, then the `stop_name` of the
/// first row of `stops.txt` with that id.
pub open spec fn stop_name_outcome(rev: Map<usize, String>, stops: GtfsTable, id: usize) -> NameOutcome {
    if !rev.contains_key(id) {
        NameOutcome::Lost
    } else {
        let g = rev[id]@;
        match table_column(stops, "stop_id"@) {
            None => NameOutcome::MissingColumn("stop_id"@),
            Some(ids) => match table_column(stops, "stop_name"@) {
                None => NameOutcome::MissingColumn("stop_name"@),
                Some(names) => match first_row(ids, g) {
                    None => NameOutcome::Invalid("Unknown stop_id "@ + g),
                    Some(r) => match cell(names, r) {
                        Some(n) => NameOutcome::Found(n@),
                        None => NameOutcome::Invalid("Missing stop_name for stop_id "@ + g),
                    },
                },
            },
        }
    }
}

/// The name of the route a trip runs on: its dense id back to its GTFS id, that trip's
/// first row in `trips.txt` gives the route, whose first row in `routes.txt` gives its
/// short and long names (`short: long`, or whichever there is).
pub open spec fn trip_name_outcome(
    rev: Map<usize, String>,
    trips: GtfsTable,
    routes: GtfsTable,
    id: usize,
) -> NameOutcome {
    if !rev.contains_key(id) {
        NameOutcome::Lost
    } else {
        let g = rev[id]@;
        match (
            table_column(trips, "trip_id"@),
            table_column(trips, "route_id"@),
            table_column(routes, "route_id"@),
            table_column(routes, "route_short_name"@),
            table_column(routes, "route_long_name"@),
        ) {
            (None, _, _, _, _) => NameOutcome::MissingColumn("trip_id"@),
            (Some(_), None, _, _, _) => NameOutcome::MissingColumn("route_id"@),
            (Some(_), Some(_), None, _, _) => NameOutcome::MissingColumn("route_id"@),
            (Some(_), Some(_), Some(_), None, _) => NameOutcome::MissingColumn("route_short_name"@),
            (Some(_), Some(_), Some(_), Some(_), None) => NameOutcome::MissingColumn("route_long_name"@),
            (Some(tids), Some(trs), Some(rids), Some(shorts), Some(longs)) => match first_row(tids, g) {
                None => NameOutcome::Invalid("Unknown trip id "@ + g),
                Some(tr) => match cell(trs, tr) {
                    None => NameOutcome::Invalid("Missing route_id for trip_id "@ + g),
                    Some(route) => match first_row(rids, route@) {
                        None => NameOutcome::Invalid("Unknown trip id "@ + g),
                        Some(rr) => match (cell(shorts, rr), cell(longs, rr)) {
                            (Some(sn), Some(ln)) => NameOutcome::Found(sn@ + ": "@ + ln@),
                            (Some(sn), None) => NameOutcome::Found(sn@),
                            (None, Some(ln)) => NameOutcome::Found(ln@),
                            (None, None) => NameOutcome::Invalid(
                                "Route id: '"@ + route@ + "' is missing either a long name or short name!"@,
                            ),
                        },
                    },
                },
            },
        }
    }
}

/// One line of a readable journey: a leg's stops, its mode, its times and its length.
pub open spec fn leg_line(on: Seq<char>, dn: Seq<char>, mode: Seq<char>, start: Seconds, end: Seconds) -> Seq<char> {
    on + " => "@ + dn + " ["@ + mode + "] | "@ + gtfs_time_text(start as nat) + "-"@ + gtfs_time_text(
        end as nat,
    ) + " | ("@ + gtfs_time_text((end - start) as nat) + " travel time)\n"@
}

/// The first line of a readable journey.
pub open spec fn journey_header(
    on: Seq<char>,
    dn: Seq<char>,
    departure: Seconds,
    travel: Seconds,
) -> Seq<char> {
    on + " to "@ + dn + ": \nDEPART AT: "@ + gtfs_time_text(departure as nat) + " | ARRIVE AT: "@
        + gtfs_time_text((departure + travel) as nat) + " | TOTAL TRAVEL TIME: "@ + gtfs_time_text(
        travel as nat,
    ) + "\n"@
}

/// The line of one leg, or the first failed lookup.
pub open spec fn leg_text(
    rev_stops: Map<usize, String>,
    rev_trips: Map<usize, String>,
    feed: RaptorGtfsFeed,
    leg: Leg,
) -> Result<Seq<char>, NameOutcome> {
    match stop_name_outcome(rev_stops, feed.stops, leg.origin_stop.id) {
        NameOutcome::Found(on) => match stop_name_outcome(rev_stops, feed.stops, leg.destination_stop.id) {
            NameOutcome::Found(dn) => {
                let mode = match leg.trip_id {
                    Some(tid) => trip_name_outcome(rev_trips, feed.trips, feed.routes, tid.id),
                    None => NameOutcome::Found("Walk"@),
                };
                match mode {
                    NameOutcome::Found(m) => Ok(leg_line(on, dn, m, leg.leg_start_time, leg.leg_end_time)),
                    o => Err(o),
                }
            },
            o => Err(o),
        },
        o => Err(o),
    }
}

/// The lines of the legs of a journey, or the first failed lookup.
pub open spec fn legs_text(
    rev_stops: Map<usize, String>,
    rev_trips: Map<usize, String>,
    feed: RaptorGtfsFeed,
    legs: Seq<Leg>,
) -> Result<Seq<char>, NameOutcome>
    decreases legs.len(),
{
    if legs.len() == 0 {
        Ok(Seq::empty())
    } else {
        match legs_text(rev_stops, rev_trips, feed, legs.drop_last()) {
            Err(o) => Err(o),
            Ok(t) => match leg_text(rev_stops, rev_trips, feed, legs.last()) {
                Ok(l) => Ok(t + l),
                Err(o) => Err(o),
            },
        }
    }
}

/// A journey written for people, or why it could not be (`None`: it has no legs).
pub open spec fn readable_journey(
    rev_stops: Map<usize, String>,
    rev_trips: Map<usize, String>,
    feed: RaptorGtfsFeed,
    j: Journey,
    travel: Seconds,
) -> Result<Seq<char>, Option<NameOutcome>> {
    match stop_name_outcome(rev_stops, feed.stops, j.origin.id) {
        NameOutcome::Found(on) => match stop_name_outcome(rev_stops, feed.stops, j.destination.id) {
            NameOutcome::Found(dn) => if j.legs@.len() == 0 {
                Err(None)
            } else {
                match legs_text(rev_stops, rev_trips, feed, j.legs@) {
                    Ok(t) => Ok(journey_header(on, dn, j.departure_time, travel) + t),
                    Err(o) => Err(Some(o)),
                }
            },
            o => Err(Some(o)),
        },
        o => Err(Some(o)),
    }
}

/// The text of one leg alone is that leg's line.
pub proof fn lemma_legs_text_single(
    rev_stops: Map<usize, String>,
    rev_trips: Map<usize, String>,
    feed: RaptorGtfsFeed,
    leg: Leg,
)
    ensures
        legs_text(rev_stops, rev_trips, feed, seq![leg]) == leg_text(rev_stops, rev_trips, feed, leg),
{
    let s = seq![leg];
    assert(s.drop_last() =~= Seq::<Leg>::empty());
    assert(legs_text(rev_stops, rev_trips, feed, Seq::<Leg>::empty()) == Ok::<Seq<char>, NameOutcome>(Seq::empty()));
    assert(s.last() == leg);
    match leg_text(rev_stops, rev_trips, feed, leg) {
        Ok(l) => assert(Seq::<char>::empty() + l =~= l),
        Err(_) => {},
    }
}

/// The text of the legs of one journey followed by those of another is the text of the
/// first journey's legs followed by the text of the second's: legs are written in the
/// order they are travelled, and the first failed lookup, in that order, is reported.
pub proof fn lemma_legs_text_concat(
    rev_stops: Map<usize, String>,
    rev_trips: Map<usize, String>,
    feed: RaptorGtfsFeed,
    a: Seq<Leg>,
    b: Seq<Leg>,
)
    ensures
        legs_text(rev_stops, rev_trips, feed, a + b) == match legs_text(rev_stops, rev_trips, feed, a) {
            Err(o) => Err(o),
            Ok(ta) => match legs_text(rev_stops, rev_trips, feed, b) {
                Ok(tb) => Ok(ta + tb),
                Err(o) => Err(o),
            },
        },
    decreases b.len(),
{
    if b.len() == 0 {
        assert(a + b =~= a);
        match legs_text(rev_stops, rev_trips, feed, a) {
            Ok(ta) => assert(ta + Seq::<char>::empty() =~= ta),
            Err(_) => {},
        }
    } else {
        lemma_legs_text_concat(rev_stops, rev_trips, feed, a, b.drop_last());
        assert((a + b).drop_last() =~= a + b.drop_last());
        assert((a + b).last() == b.last());
        match legs_text(rev_stops, rev_trips, feed, a) {
            Ok(ta) => match legs_text(rev_stops, rev_trips, feed, b.drop_last()) {
                Ok(tb) => match leg_text(rev_stops, rev_trips, feed, b.last()) {
                    Ok(l) => assert(ta + tb + l =~= ta + (tb + l)),
                    Err(_) => {},
                },
                Err(_) => {},
            },
            Err(_) => {},
        }
    }
}

/// Two legs are written in the order they are travelled: the first leg's line, then the
/// second's.
pub proof fn lemma_legs_text_pair(
    rev_stops: Map<usize, String>,
    rev_trips: Map<usize, String>,
    feed: RaptorGtfsFeed,
    first: Leg,
    second: Leg,
)
    ensures
        (leg_text(rev_stops, rev_trips, feed, first), leg_text(rev_stops, rev_trips, feed, second)) matches (
            Ok(x),
            Ok(y),
        ) ==> legs_text(rev_stops, rev_trips, feed, seq![first, second]) == Ok::<Seq<char>, NameOutcome>(x + y),
{
    let both = seq![first, second];
    lemma_legs_text_single(rev_stops, rev_trips, feed, first);
    assert(both.drop_last() =~= seq![first]);
    assert(both.last() == second);
}

proof fn lemma_legs_text_err_stays(
    rev_stops: Map<usize, String>,
    rev_trips: Map<usize, String>,
    feed: RaptorGtfsFeed,
    legs: Seq<Leg>,
    k: int,
)
    requires
        0 <= k <= legs.len(),
        legs_text(rev_stops, rev_trips, feed, legs.take(k)) is Err,
    ensures
        legs_text(rev_stops, rev_trips, feed, legs) == legs_text(rev_stops, rev_trips, feed, legs.take(k)),
    decreases legs.len(),
{
    if k < legs.len() {
        assert(legs.drop_last().take(k) =~= legs.take(k));
        lemma_legs_text_err_stays(rev_stops, rev_trips, feed, legs.drop_last(), k);
    } else {
        assert(legs.take(k) =~= legs);
    }
}

impl Raptor {
    /// The handler's working tables match its timetable.
    pub closed spec fn inv(&self) -> bool {
        self.raptor_handler.inv()
    }

    /// The timetable the routing searches.
    pub closed spec fn timetable_spec(&self) -> RaptorTimetable {
        self.raptor_handler.table()
    }

    /// The map from dense stop ids back to GTFS stop ids.
    pub closed spec fn reverse_stops(&self) -> Map<usize, String> {
        self.reverse_id_map.stops@
    }

    /// The map from dense trip ids back to GTFS trip ids.
    pub closed spec fn reverse_trips(&self) -> Map<usize, String> {
        self.reverse_id_map.trips@
    }

    /// The feed the timetable was built from.
    pub closed spec fn feed_spec(&self) -> RaptorGtfsFeed {
        self.feed
    }

    /// The directory the feed was read from.
    pub closed spec fn gtfs_dir_spec(&self) -> Seq<char> {
        self.gtfs_dir@
    }

    /// The cache the timetable is kept in.
    pub closed spec fn cache_spec(&self) -> RaptorCache {
        self.cache
    }

    /// The map from GTFS stop ids to dense stop ids.
    pub closed spec fn stop_ids(&self) -> Map<Seq<char>, usize> {
        text_keyed(self.id_map.stops)
    }

    /// Puts a feed, its timetable and its id map together for routing.
    pub fn assemble(
        gtfs_dir: String,
        cache: RaptorCache,
        feed: RaptorGtfsFeed,
        timetable: RaptorTimetable,
        id_map: IdMap,
    ) -> (res: Self)
        ensures
            res.inv(),
            res.timetable_spec() == timetable,
            res.stop_ids() == text_keyed(id_map.stops),
            res.gtfs_dir_spec() == gtfs_dir@,
            res.cache_spec() == cache,
            res.feed_spec() == feed,
    {
        let reverse_id_map = id_map.invert();
        Raptor {
            gtfs_dir,
            cache,
            feed,
            id_map,
            reverse_id_map,
            raptor_handler: RaptorHandler::new(timetable),
        }
    }

    /// The timetable the routing searches.
    pub fn timetable(&self) -> (res: &RaptorTimetable)
        ensures
            *res == self.timetable_spec(),
    {
        self.raptor_handler.timetable()
    }

    /// The map from GTFS ids to dense ids.
    pub fn id_map(&self) -> (res: &IdMap)
        ensures
            text_keyed(res.stops) == self.stop_ids(),
    {
        &self.id_map
    }

    /// The directory the feed was read from.
    pub fn gtfs_dir(&self) -> (res: &String)
        ensures
            res@ == self.gtfs_dir_spec(),
    {
        &self.gtfs_dir
    }

    /// The cache the timetable is kept in.
    pub fn cache(&self) -> (res: &RaptorCache)
        ensures
            *res == self.cache_spec(),
    {
        &self.cache
    }

    /// The feed the timetable was built from.
    pub fn feed(&self) -> (res: &RaptorGtfsFeed)
        ensures
            *res == self.feed_spec(),
    {
        &self.feed
    }

    /// Runs an earliest-arrival query between two stops given by GTFS id, leaving at
    /// `depart_time` and boarding at most `max_transfers + 1` vehicles.
    ///
    /// An unknown stop is an error naming it. So is a timetable the search cannot run on:
    /// one that is not well formed, or whose times overflow when a walk is added. Otherwise
    /// the answer is the handler's: what `query_answer` states of this timetable and these
    /// arguments.
    pub fn query(
        &mut self,
        origin_stop: &str,
        destination_stop: &str,
        depart_time: Seconds,
        max_transfers: usize,
    ) -> (res: Result<RaptorQueryResult, RaptorError>)
        requires
            old(self).inv(),
        ensures
            final(self).inv(),
            final(self).timetable_spec() == old(self).timetable_spec(),
            final(self).stop_ids() == old(self).stop_ids(),
            final(self).reverse_stops() == old(self).reverse_stops(),
            final(self).reverse_trips() == old(self).reverse_trips(),
            final(self).feed_spec() == old(self).feed_spec(),
            ({
                let ids = old(self).stop_ids();
                let tt = old(self).timetable_spec();
                if !ids.contains_key(origin_stop@) {
                    res matches Err(RaptorError::InvalidGtfs(m)) && m@ == unknown_stop_message(origin_stop@)
                } else if !ids.contains_key(destination_stop@) {
                    res matches Err(RaptorError::InvalidGtfs(m)) && m@ == unknown_stop_message(
                        destination_stop@,
                    )
                } else {
                    let o = RaptorStopID { id: ids[origin_stop@] };
                    let d = RaptorStopID { id: ids[destination_stop@] };
                    if !(tt.wf() && tt.times_fit(depart_time) && o.id < tt.stops@.len() && d.id < tt.stops@.len()
                        && max_transfers + 2 <= usize::MAX) {
                        res matches Err(RaptorError::InvalidGtfs(_))
                    } else {
                        query_answer(&tt, o, d, depart_time, Some(max_transfers), res)
                    }
                }
            }),
    {
        let origin = match text_map_get(&self.id_map.stops, origin_stop) {
            Some(v) => RaptorStopID::new(v),
            None => {
                let mut msg = String::from_str("Unknown stop ");
                msg.append(origin_stop);
                return Err(RaptorError::InvalidGtfs(msg));
            },
        };
        let destination = match text_map_get(&self.id_map.stops, destination_stop) {
            Some(v) => RaptorStopID::new(v),
            None => {
                let mut msg = String::from_str("Unknown stop ");
                msg.append(destination_stop);
                return Err(RaptorError::InvalidGtfs(msg));
            },
        };
        let tt = self.raptor_handler.timetable();
        if !tt.check_wf() {
            return Err(RaptorError::InvalidGtfs(String::from_str("The timetable is not well formed")));
        }
        if !tt.check_times_fit(depart_time) {
            return Err(RaptorError::InvalidGtfs(String::from_str("Times overflow when walks are added to them")));
        }
        if origin.id >= tt.stops.len() || destination.id >= tt.stops.len() {
            return Err(RaptorError::InvalidGtfs(String::from_str("A stop id is outside the timetable")));
        }
        if max_transfers > usize::MAX - 2 {
            return Err(RaptorError::InvalidGtfs(String::from_str("Too many transfers asked for")));
        }
        self.raptor_handler.query(origin, destination, depart_time, Some(max_transfers))
    }

    /// The travel time between two stops given by GTFS id, as `query` finds it: the
    /// travel time of an answer `query_answer` allows, or the same error.
    pub fn travel_time(
        &mut self,
        origin_stop: &str,
        destination_stop: &str,
        depart_time: Seconds,
        max_transfers: usize,
    ) -> (res: Result<Seconds, RaptorError>)
        requires
            old(self).inv(),
        ensures
            final(self).inv(),
            final(self).timetable_spec() == old(self).timetable_spec(),
            ({
                let ids = old(self).stop_ids();
                let tt = old(self).timetable_spec();
                if !ids.contains_key(origin_stop@) {
                    res matches Err(RaptorError::InvalidGtfs(m)) && m@ == unknown_stop_message(origin_stop@)
                } else if !ids.contains_key(destination_stop@) {
                    res matches Err(RaptorError::InvalidGtfs(m)) && m@ == unknown_stop_message(
                        destination_stop@,
                    )
                } else {
                    let o = RaptorStopID { id: ids[origin_stop@] };
                    let d = RaptorStopID { id: ids[destination_stop@] };
                    if !(tt.wf() && tt.times_fit(depart_time) && o.id < tt.stops@.len() && d.id < tt.stops@.len()
                        && max_transfers + 2 <= usize::MAX) {
                        res matches Err(RaptorError::InvalidGtfs(_))
                    } else {
                        exists|q: Result<RaptorQueryResult, RaptorError>|
                            #[trigger] query_answer(&tt, o, d, depart_time, Some(max_transfers), q) && res == travel_of(q)
                    }
                }
            }),
    {
        let q = self.query(origin_stop, destination_stop, depart_time, max_transfers);
        let ghost answer = q;
        let res = match q {
            Ok(result) => Ok(result.travel_time),
            Err(e) => Err(e),
        };
        proof {
            assert(res == travel_of(answer));
        }
        res
    }

    /// The journey a query finds between two stops given by GTFS id, with the same errors
    /// as `query`.
    pub fn trip_diary(
        &mut self,
        origin_stop: &str,
        destination_stop: &str,
        depart_time: Seconds,
        max_transfers: usize,
    ) -> (res: Result<Journey, RaptorError>)
        requires
            old(self).inv(),
        ensures
            final(self).inv(),
            final(self).timetable_spec() == old(self).timetable_spec(),
            ({
                let ids = old(self).stop_ids();
                let tt = old(self).timetable_spec();
                if !ids.contains_key(origin_stop@) {
                    res matches Err(RaptorError::InvalidGtfs(m)) && m@ == unknown_stop_message(origin_stop@)
                } else if !ids.contains_key(destination_stop@) {
                    res matches Err(RaptorError::InvalidGtfs(m)) && m@ == unknown_stop_message(
                        destination_stop@,
                    )
                } else {
                    let o = RaptorStopID { id: ids[origin_stop@] };
                    let d = RaptorStopID { id: ids[destination_stop@] };
                    if !(tt.wf() && tt.times_fit(depart_time) && o.id < tt.stops@.len() && d.id < tt.stops@.len()
                        && max_transfers + 2 <= usize::MAX) {
                        res matches Err(RaptorError::InvalidGtfs(_))
                    } else {
                        exists|q: Result<RaptorQueryResult, RaptorError>|
                            #[trigger] query_answer(&tt, o, d, depart_time, Some(max_transfers), q) && res == diary_of(q)
                    }
                }
            }),
    {
        let q = self.query(origin_stop, destination_stop, depart_time, max_transfers);
        let ghost answer = q;
        let res = match q {
            Ok(result) => match result.diary {
                Some(j) => Ok(j),
                None => Err(RaptorError::EmptyJourney),
            },
            Err(e) => Err(e),
        };
        proof {
            assert(res == diary_of(answer));
        }
        res
    }

    /// The journey a query finds, written for people by `make_human_readable`; a journey
    /// with a leg that ends before it starts (only trips that go back in time allow
    /// one) is an `InvalidGtfs` error.
    pub fn trip_diary_readable(
        &mut self,
        origin_stop: &str,
        destination_stop: &str,
        depart_time: Seconds,
        max_transfers: usize,
    ) -> (res: Result<String, RaptorError>)
        requires
            old(self).inv(),
        ensures
            final(self).inv(),
            final(self).timetable_spec() == old(self).timetable_spec(),
            ({
                let ids = old(self).stop_ids();
                let tt = old(self).timetable_spec();
                if !ids.contains_key(origin_stop@) {
                    res matches Err(RaptorError::InvalidGtfs(m)) && m@ == unknown_stop_message(origin_stop@)
                } else if !ids.contains_key(destination_stop@) {
                    res matches Err(RaptorError::InvalidGtfs(m)) && m@ == unknown_stop_message(
                        destination_stop@,
                    )
                } else {
                    let o = RaptorStopID { id: ids[origin_stop@] };
                    let d = RaptorStopID { id: ids[destination_stop@] };
                    if !(tt.wf() && tt.times_fit(depart_time) && o.id < tt.stops@.len() && d.id < tt.stops@.len()
                        && max_transfers + 2 <= usize::MAX) {
                        res matches Err(RaptorError::InvalidGtfs(_))
                    } else {
                        exists|q: Result<RaptorQueryResult, RaptorError>|
                            #[trigger] query_answer(&tt, o, d, depart_time, Some(max_transfers), q) && match q {
                                Err(e) => res == Err::<String, RaptorError>(e),
                                Ok(r) => {
                                    let j = r.diary->0;
                                    if !legs_in_order(j) {
                                        res matches Err(RaptorError::InvalidGtfs(_))
                                    } else {
                                        match readable_journey(
                                            old(self).reverse_stops(),
                                            old(self).reverse_trips(),
                                            old(self).feed_spec(),
                                            j,
                                            r.travel_time,
                                        ) {
                                            Ok(text) => res matches Ok(s) && s@ == text,
                                            Err(None) => res matches Err(RaptorError::EmptyJourney),
                                            Err(Some(o)) => res matches Err(e) && name_error_is(e, o),
                                        }
                                    }
                                },
                            }
                    }
                }
            }),
    {
        let q = self.query(origin_stop, destination_stop, depart_time, max_transfers);
        let ghost answer = q;
        let result = match q {
            Ok(r) => r,
            Err(e) => return Err(e),
        };
        let diary = match result.diary {
            Some(j) => j,
            None => return Err(RaptorError::EmptyJourney),
        };
        let mut i: usize = 0;
        #[verifier::loop_isolation(false)]
        while i < diary.legs.len()
            invariant
                i <= diary.legs@.len(),
                forall|k: int| 0 <= k < i ==> (#[trigger] diary.legs@[k]).leg_start_time <= diary.legs@[k].leg_end_time,
            decreases diary.legs@.len() - i,
        {
            if diary.legs[i].leg_start_time > diary.legs[i].leg_end_time {
                return Err(RaptorError::InvalidGtfs(String::from_str("A leg of the journey ends before it starts")));
            }
            i = i + 1;
        }
        self.make_human_readable(&diary, result.travel_time)
    }

    /// Looks up the name of a stop by its dense id.
    pub fn raptor_stop_id_to_name(&self, raptor_id: &RaptorStopID) -> (res: Result<String, RaptorError>)
        ensures
            match stop_name_outcome(self.reverse_stops(), self.feed_spec().stops, raptor_id.id) {
                NameOutcome::Found(n) => res matches Ok(s) && s@ == n,
                o => res matches Err(e) && name_error_is(e, o),
            },
    {
        let gtfs_id = match self.reverse_id_map.stops.get(&raptor_id.id) {
            Some(id) => id,
            None => {
                return Err(RaptorError::UnknownError(String::from_str("Something bad happened when making human readable")));
            },
        };
        let ids = match self.feed.stops.column("stop_id") {
            Ok(c) => c,
            Err(e) => return Err(e),
        };
        let names = match self.feed.stops.column("stop_name") {
            Ok(c) => c,
            Err(e) => return Err(e),
        };
        let row = match find_row(ids, gtfs_id.as_str()) {
            Some(r) => r,
            None => {
                let mut msg = String::from_str("Unknown stop_id ");
                msg.append(gtfs_id.as_str());
                return Err(RaptorError::InvalidGtfs(msg));
            },
        };
        match get_cell(names, row) {
            Some(n) => Ok(n.clone()),
            None => {
                let mut msg = String::from_str("Missing stop_name for stop_id ");
                msg.append(gtfs_id.as_str());
                Err(RaptorError::InvalidGtfs(msg))
            },
        }
    }

    /// Looks up the name of the route a trip runs on, by the trip's dense id.
    pub fn raptor_trip_id_to_name(&self, raptor_id: &RaptorTripID) -> (res: Result<String, RaptorError>)
        ensures
            match trip_name_outcome(
                self.reverse_trips(),
                self.feed_spec().trips,
                self.feed_spec().routes,
                raptor_id.id,
            ) {
                NameOutcome::Found(n) => res matches Ok(s) && s@ == n,
                o => res matches Err(e) && name_error_is(e, o),
            },
    {
        let gtfs_id = match self.reverse_id_map.trips.get(&raptor_id.id) {
            Some(id) => id,
            None => {
                return Err(RaptorError::UnknownError(String::from_str("Something bad happened when making human readable")));
            },
        };
        let trip_ids = match self.feed.trips.column("trip_id") {
            Ok(c) => c,
            Err(e) => return Err(e),
        };
        let trip_routes = match self.feed.trips.column("route_id") {
            Ok(c) => c,
            Err(e) => return Err(e),
        };
        let route_ids = match self.feed.routes.column("route_id") {
            Ok(c) => c,
            Err(e) => return Err(e),
        };
        let shorts = match self.feed.routes.column("route_short_name") {
            Ok(c) => c,
            Err(e) => return Err(e),
        };
        let longs = match self.feed.routes.column("route_long_name") {
            Ok(c) => c,
            Err(e) => return Err(e),
        };
        let trip_row = match find_row(trip_ids, gtfs_id.as_str()) {
            Some(r) => r,
            None => {
                let mut msg = String::from_str("Unknown trip id ");
                msg.append(gtfs_id.as_str());
                return Err(RaptorError::InvalidGtfs(msg));
            },
        };
        let route = match get_cell(trip_routes, trip_row) {
            Some(r) => r,
            None => {
                let mut msg = String::from_str("Missing route_id for trip_id ");
                msg.append(gtfs_id.as_str());
                return Err(RaptorError::InvalidGtfs(msg));
            },
        };
        let route_row = match find_row(route_ids, route.as_str()) {
            Some(r) => r,
            None => {
                let mut msg = String::from_str("Unknown trip id ");
                msg.append(gtfs_id.as_str());
                return Err(RaptorError::InvalidGtfs(msg));
            },
        };
        match (get_cell(shorts, route_row), get_cell(longs, route_row)) {
            (Some(sn), Some(ln)) => {
                let mut name = sn.clone();
                name.append(": ");
                name.append(ln.as_str());
                Ok(name)
            },
            (Some(sn), None) => Ok(sn.clone()),
            (None, Some(ln)) => Ok(ln.clone()),
            (None, None) => {
                let mut msg = String::from_str("Route id: '");
                msg.append(route.as_str());
                msg.append("' is missing either a long name or short name!");
                Err(RaptorError::InvalidGtfs(msg))
            },
        }
    }

    /// Writes a journey for people: a line with its stops and times, then one line per
    /// leg with its stops, the route (or `Walk`) and its times.
    pub fn make_human_readable(&self, trip_diary: &Journey, travel_time: Seconds) -> (res: Result<
        String,
        RaptorError,
    >)
        requires
            trip_diary.departure_time + travel_time <= usize::MAX,
            forall|i: int|
                0 <= i < trip_diary.legs@.len() ==> (#[trigger] trip_diary.legs@[i]).leg_start_time
                    <= trip_diary.legs@[i].leg_end_time,
        ensures
            match readable_journey(
                self.reverse_stops(),
                self.reverse_trips(),
                self.feed_spec(),
                *trip_diary,
                travel_time,
            ) {
                Ok(text) => res matches Ok(s) && s@ == text,
                Err(None) => res matches Err(RaptorError::EmptyJourney),
                Err(Some(o)) => res matches Err(e) && name_error_is(e, o),
            },
    {
        let origin_name = match self.raptor_stop_id_to_name(&trip_diary.origin) {
            Ok(n) => n,
            Err(e) => return Err(e),
        };
        let destination_name = match self.raptor_stop_id_to_name(&trip_diary.destination) {
            Ok(n) => n,
            Err(e) => return Err(e),
        };
        let departure_time = seconds_to_gtfs_time(trip_diary.departure_time);
        let total_travel_time = seconds_to_gtfs_time(travel_time);
        let arrival_time = seconds_to_gtfs_time(trip_diary.departure_time + travel_time);
        let mut out = origin_name;
        out.append(" to ");
        out.append(destination_name.as_str());
        out.append(": \nDEPART AT: ");
        out.append(departure_time.as_str());
        out.append(" | ARRIVE AT: ");
        out.append(arrival_time.as_str());
        out.append(" | TOTAL TRAVEL TIME: ");
        out.append(total_travel_time.as_str());
        out.append("\n");
        let ghost header = out@;
        proof {
            assert(header =~= journey_header(origin_name@, destination_name@, trip_diary.departure_time, travel_time));
        }
        if trip_diary.legs.len() == 0 {
            return Err(RaptorError::EmptyJourney);
        }
        let ghost rs = self.reverse_stops();
        let ghost rt = self.reverse_trips();
        let ghost f = self.feed_spec();
        let ghost legs = trip_diary.legs@;
        let ghost on = origin_name@;
        let ghost dn = destination_name@;
        let ghost mut done: Seq<char> = Seq::empty();
        let mut i: usize = 0;
        proof {
            assert(legs.take(0) =~= Seq::<Leg>::empty());
            assert(out@ =~= header + done);
        }
        while i < trip_diary.legs.len()
            invariant
                i <= legs.len(),
                legs == trip_diary.legs@,
                legs.len() > 0,
                stop_name_outcome(rs, f.stops, trip_diary.origin.id) == NameOutcome::Found(on),
                stop_name_outcome(rs, f.stops, trip_diary.destination.id) == NameOutcome::Found(dn),
                header == journey_header(on, dn, trip_diary.departure_time, travel_time),
                rs == self.reverse_stops(),
                rt == self.reverse_trips(),
                f == self.feed_spec(),
                forall|q: int| 0 <= q < legs.len() ==> (#[trigger] legs[q]).leg_start_time <= legs[q].leg_end_time,
                legs_text(rs, rt, f, legs.take(i as int)) == Ok::<Seq<char>, NameOutcome>(done),
                out@ == header + done,
            decreases legs.len() - i,
        {
            proof {
                assert(legs.take(i + 1).drop_last() =~= legs.take(i as int));
                assert(legs.take(i + 1).last() == legs[i as int]);
            }
            let leg = &trip_diary.legs[i];
            match self.leg_line_text(leg) {
                Ok(line) => {
                    out.append(line.as_str());
                    proof {
                        done = done + line@;
                        assert(out@ =~= header + done);
                    }
                },
                Err(e) => {
                    proof {
                        lemma_legs_text_err_stays(rs, rt, f, legs, i + 1);
                    }
                    return Err(e);
                },
            }
            i = i + 1;
        }
        proof {
            assert(legs.take(i as int) =~= legs);
        }
        Ok(out)
    }

    /// The line of one leg of a journey.
    fn leg_line_text(&self, leg: &Leg) -> (res: Result<String, RaptorError>)
        requires
            leg.leg_start_time <= leg.leg_end_time,
        ensures
            match leg_text(self.reverse_stops(), self.reverse_trips(), self.feed_spec(), *leg) {
                Ok(text) => res matches Ok(s) && s@ == text,
                Err(o) => res matches Err(e) && name_error_is(e, o),
            },
    {
        let leg_origin_name = match self.raptor_stop_id_to_name(&leg.origin_stop) {
            Ok(n) => n,
            Err(e) => return Err(e),
        };
        let leg_destination_name = match self.raptor_stop_id_to_name(&leg.destination_stop) {
            Ok(n) => n,
            Err(e) => return Err(e),
        };
        let start_time = seconds_to_gtfs_time(leg.leg_start_time);
        let end_time = seconds_to_gtfs_time(leg.leg_end_time);
        let leg_travel = seconds_to_gtfs_time(leg.leg_end_time - leg.leg_start_time);
        let trip_mode_info = match leg.trip_id {
            Some(raptor_trip_id) => match self.raptor_trip_id_to_name(&raptor_trip_id) {
                Ok(n) => n,
                Err(e) => return Err(e),
            },
            None => {
                proof {
                    reveal_strlit("Walk");
                }
                String::from_str("Walk")
            },
        };
        let mut out = leg_origin_name;
        out.append(" => ");
        out.append(leg_destination_name.as_str());
        out.append(" [");
        out.append(trip_mode_info.as_str());
        out.append("] | ");
        out.append(start_time.as_str());
        out.append("-");
        out.append(end_time.as_str());
        out.append(" | (");
        out.append(leg_travel.as_str());
        out.append(" travel time)\n");
        Ok(out)
    }
}

} // verus!
