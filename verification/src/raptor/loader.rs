use vstd::prelude::*;

use std::collections::HashMap;

use crate::datetime::{
    gtfs_time_reading, gtfs_time_to_seconds, time_fits, GtfsTimeReading, Seconds,
};
use crate::errors::{RaptorError, TimeParsingError};
use crate::gtfs_columns::{RouteColumns, StopColumns, StopTimesColumns, TripColumns};
use crate::text::{chars_of, decimal, parse_usize_chars, parse_usize_spec, push_decimal};
use crate::raptor::feed::{cell, column_not_found, get_cell, table_column, RaptorGtfsFeed};
use crate::raptor::ids::{last_rows, text_keyed, text_map_get, text_map_len, IdMap};
use crate::raptor::types::{RaptorStop, RaptorStopID};

verus! {

/// The `stop_id` column of `stops.txt`, if present.
pub open spec fn stops_stop_ids(feed: RaptorGtfsFeed) -> Option<Seq<Option<String>>> {
    table_column(feed.stops, StopColumns::StopID.column_name())
}

/// The `stop_name` column of `stops.txt`, if present.
pub open spec fn stops_names(feed: RaptorGtfsFeed) -> Option<Seq<Option<String>>> {
    table_column(feed.stops, StopColumns::Name.column_name())
}

/// The `route_id` column of `routes.txt`, if present.
pub open spec fn routes_route_ids(feed: RaptorGtfsFeed) -> Option<Seq<Option<String>>> {
    table_column(feed.routes, RouteColumns::RouteID.column_name())
}

/// The `trip_id` column of `trips.txt`, if present.
pub open spec fn trips_trip_ids(feed: RaptorGtfsFeed) -> Option<Seq<Option<String>>> {
    table_column(feed.trips, TripColumns::TripID.column_name())
}

/// Whether `res` is the error a missing column gives.
pub open spec fn missing_column(res: RaptorError, name: Seq<char>) -> bool {
    res matches RaptorError::PolarsError(m) && m@ == column_not_found(name)
}

/// Maps the GTFS ids of stops, routes and trips to dense ids: each id maps to the last
/// row of its file that holds it.
pub fn map_ids(feed: &RaptorGtfsFeed) -> (res: Result<IdMap, RaptorError>)
    ensures
        match (stops_stop_ids(*feed), routes_route_ids(*feed), trips_trip_ids(*feed)) {
            (None, _, _) => res matches Err(e) && missing_column(e, "stop_id"@),
            (Some(_), None, _) => res matches Err(e) && missing_column(e, "route_id"@),
            (Some(_), Some(_), None) => res matches Err(e) && missing_column(e, "trip_id"@),
            (Some(s), Some(r), Some(t)) => res matches Ok(m) && text_keyed(m.stops) == last_rows(s)
                && text_keyed(m.routes) == last_rows(r) && text_keyed(m.trips) == last_rows(t),
        },
{
    let stop_ids = match feed.stops.column(StopColumns::StopID.name()) {
        Ok(c) => c,
        Err(e) => return Err(e),
    };
    let route_ids = match feed.routes.column(RouteColumns::RouteID.name()) {
        Ok(c) => c,
        Err(e) => return Err(e),
    };
    let trip_ids = match feed.trips.column(TripColumns::TripID.name()) {
        Ok(c) => c,
        Err(e) => return Err(e),
    };
    Ok(IdMap::from_columns(route_ids, trip_ids, stop_ids))
}

/// Every stop id of the column is in the map, at a dense id below the map's size.
pub open spec fn stop_ids_dense(col: Seq<Option<String>>, m: Map<Seq<char>, usize>) -> bool {
    forall|row: int|
        0 <= row < col.len() ==> (#[trigger] col[row] matches Some(id) ==> m.contains_key(id@)
            && m[id@] < m.dom().len())
}

/// A stop's name: the `stop_name` cell of its row, or its id where there is none.
pub open spec fn stop_name_at(names: Option<Seq<Option<String>>>, row: int, id: Seq<char>) -> Seq<char> {
    match names {
        Some(ns) => match cell(ns, row) {
            Some(s) => s@,
            None => id,
        },
        None => id,
    }
}

/// The name each dense stop id gets from the rows of `stops.txt`: the last row with the
/// stop's id names it; ids no row names stay empty.
pub open spec fn named_slots(
    ids: Seq<Option<String>>,
    names: Option<Seq<Option<String>>>,
    m: Map<Seq<char>, usize>,
    n: nat,
) -> Seq<Option<Seq<char>>>
    decreases ids.len(),
{
    if ids.len() == 0 {
        Seq::new(n, |k: int| None)
    } else {
        let prev = named_slots(ids.drop_last(), names, m, n);
        match ids.last() {
            Some(id) => prev.update(
                m[id@] as int,
                Some(stop_name_at(names, ids.len() - 1, id@)),
            ),
            None => prev,
        }
    }
}

/// Index of the first empty slot, if any.
pub open spec fn first_empty(s: Seq<Option<Seq<char>>>) -> Option<int>
    decreases s.len(),
{
    if s.len() == 0 {
        None
    } else {
        match first_empty(s.drop_last()) {
            Some(i) => Some(i),
            None => if s.last() is None {
                Some(s.len() - 1)
            } else {
                None
            },
        }
    }
}

pub open spec fn slot_views(v: Seq<Option<String>>) -> Seq<Option<Seq<char>>> {
    v.map_values(|o: Option<String>| match o {
        Some(s) => Some(s@),
        None => None,
    })
}

proof fn lemma_first_empty(s: Seq<Option<Seq<char>>>, k: int)
    requires
        0 <= k <= s.len(),
        forall|j: int| 0 <= j < k ==> (#[trigger] s[j]) is Some,
    ensures
        k < s.len() && s[k] is None ==> first_empty(s) == Some(k),
        k == s.len() ==> first_empty(s) is None,
    decreases s.len(),
{
    if s.len() > 0 {
        if k == s.len() {
            lemma_first_empty(s.drop_last(), k - 1);
        } else if k < s.len() - 1 {
            lemma_first_empty(s.drop_last(), k);
        } else {
            lemma_first_empty(s.drop_last(), k);
        }
    }
}

/// Builds the table of stops, indexed by dense stop id. A stop is named by the
/// `stop_name` of the last row with its id, or by its id where that row has no name (or
/// the file no such column). A dense id that no row names is an error.
pub fn build_stops(feed: &RaptorGtfsFeed, id_map: &IdMap) -> (res: Result<Vec<RaptorStop>, RaptorError>)
    requires
        stops_stop_ids(*feed) matches Some(c) ==> stop_ids_dense(c, text_keyed(id_map.stops)),
    ensures
        match stops_stop_ids(*feed) {
            None => res matches Err(e) && missing_column(e, "stop_id"@),
            Some(c) => {
                let slots = named_slots(
                    c,
                    stops_names(*feed),
                    text_keyed(id_map.stops),
                    text_keyed(id_map.stops).dom().len(),
                );
                match first_empty(slots) {
                    Some(k) => res matches Err(RaptorError::MissingStop(j)) && j == k,
                    None => res matches Ok(v) && v@.len() == slots.len() && v@.len()
                        == text_keyed(id_map.stops).dom().len() && forall|k: int|
                        0 <= k < v@.len() ==> (#[trigger] v@[k]).stop_id.id == k && slots[k]
                            == Some(v@[k].name@),
                }
            },
        },
{
    let stop_ids = match feed.stops.column(StopColumns::StopID.name()) {
        Ok(c) => c,
        Err(e) => return Err(e),
    };
    let names = match feed.stops.column(StopColumns::Name.name()) {
        Ok(c) => Some(c),
        Err(_) => None,
    };
    let ghost gnames: Option<Seq<Option<String>>> = match names {
        Some(c) => Some(c@),
        None => None,
    };
    assert(gnames == stops_names(*feed));
    assert(stops_stop_ids(*feed) == Some(stop_ids@));
    let ghost m = text_keyed(id_map.stops);
    let n = text_map_len(&id_map.stops);
    let mut slots: Vec<Option<String>> = Vec::new();
    let mut k: usize = 0;
    while k < n
        invariant
            k <= n,
            slots@.len() == k,
            forall|j: int| 0 <= j < k ==> (#[trigger] slots@[j]) is None,
        decreases n - k,
    {
        slots.push(None);
        k = k + 1;
    }
    proof {
        assert(slot_views(slots@) =~= named_slots(stop_ids@.take(0), gnames, m, n as nat));
    }
    let mut idx: usize = 0;
    while idx < stop_ids.len()
        invariant
            idx <= stop_ids@.len(),
            n == m.dom().len(),
            m == text_keyed(id_map.stops),
            stop_ids_dense(stop_ids@, m),
            slots@.len() == n,
            slot_views(slots@) == named_slots(stop_ids@.take(idx as int), gnames, m, n as nat),
            gnames == (match names {
                Some(c) => Some(c@),
                None => None::<Seq<Option<String>>>,
            }),
        decreases stop_ids@.len() - idx,
    {
        proof {
            assert(stop_ids@.take(idx + 1).drop_last() =~= stop_ids@.take(idx as int));
            assert(stop_ids@.take(idx + 1).last() == stop_ids@[idx as int]);
        }
        match &stop_ids[idx] {
            Some(gtfs_id) => {
                let raptor_id = match text_map_get(&id_map.stops, gtfs_id.as_str()) {
                    Some(v) => v,
                    None => {
                        proof {
                            assert(stop_ids@[idx as int] matches Some(id) ==> m.contains_key(id@));
                        }
                        return Err(RaptorError::MissingStop(0));
                    },
                };
                let name = match names {
                    Some(c) => match get_cell(c, idx) {
                        Some(s) => s.clone(),
                        None => gtfs_id.clone(),
                    },
                    None => gtfs_id.clone(),
                };
                assert(name@ == stop_name_at(gnames, idx as int, gtfs_id@));
                let ghost before = slots@;
                slots.set(raptor_id, Some(name));
                proof {
                    assert(slot_views(slots@) =~= slot_views(before).update(
                        raptor_id as int,
                        Some(name@),
                    ));
                }
            },
            None => {},
        }
        idx = idx + 1;
    }
    proof {
        assert(stop_ids@.take(idx as int) =~= stop_ids@);
    }
    let ghost slots_spec = named_slots(stop_ids@, gnames, m, n as nat);
    let mut out: Vec<RaptorStop> = Vec::new();
    let mut j: usize = 0;
    while j < n
        invariant
            j <= n,
            n == m.dom().len(),
            m == text_keyed(id_map.stops),
            slots_spec == named_slots(stop_ids@, gnames, m, n as nat),
            gnames == stops_names(*feed),
            stops_stop_ids(*feed) == Some(stop_ids@),
            slots@.len() == n,
            slot_views(slots@) == slots_spec,
            out@.len() == j,
            forall|q: int| 0 <= q < j ==> (#[trigger] slots_spec[q]) is Some,
            forall|q: int|
                0 <= q < j ==> (#[trigger] out@[q]).stop_id.id == q && slots_spec[q] == Some(
                    out@[q].name@,
                ),
        decreases n - j,
    {
        match &slots[j] {
            Some(nm) => {
                assert(slot_views(slots@)[j as int] == Some(nm@));
                out.push(RaptorStop { stop_id: RaptorStopID::new(j), name: nm.clone() });
            },
            None => {
                proof {
                    assert(slot_views(slots@)[j as int] is None);
                    lemma_first_empty(slots_spec, j as int);
                }
                return Err(RaptorError::MissingStop(j));
            },
        }
        j = j + 1;
    }
    proof {
        lemma_first_empty(slots_spec, j as int);
    }
    Ok(out)
}

/// A stop time of a trip: stop sequence, stop, arrival and departure.
pub type StopTimeEntry = (usize, RaptorStopID, Seconds, Seconds);

/// The stop times of each trip, keyed by dense trip id, ordered by stop sequence.
pub type StopTimesByTrip = HashMap<usize, Vec<StopTimeEntry>>;

/// A column of `stop_times.txt`, if present.
pub open spec fn stop_times_column(feed: RaptorGtfsFeed, c: StopTimesColumns) -> Option<Seq<Option<String>>> {
    table_column(feed.stop_times, c.column_name())
}

/// The five columns of `stop_times.txt` the loader reads.
pub struct StopTimeColumns {
    pub trips: Seq<Option<String>>,
    pub stops: Seq<Option<String>>,
    pub arrivals: Seq<Option<String>>,
    pub departures: Seq<Option<String>>,
    pub sequences: Seq<Option<String>>,
}

/// What one row of `stop_times.txt` gives.
pub enum RowOutcome {
    /// A stop time of the trip with dense id `trip`.
    Entry { trip: usize, entry: StopTimeEntry },
    /// The row is invalid; the message says why.
    Invalid(Seq<char>),
    /// The arrival or departure (the text given) of the row does not read as a time.
    BadTime(Seq<char>),
}

/// What a row reads as, checking its cells in the order: trip, stop, the two ids in the
/// maps, arrival, departure, stop sequence.
pub open spec fn row_outcome(
    c: StopTimeColumns,
    trip_ids: Map<Seq<char>, usize>,
    stop_ids: Map<Seq<char>, usize>,
    row: int,
) -> RowOutcome {
    let at_row = decimal(row as nat);
    match cell(c.trips, row) {
        None => RowOutcome::Invalid("missing trip_id in stop_times.txt at row "@ + at_row),
        Some(tid) => match cell(c.stops, row) {
            None => RowOutcome::Invalid("missing stop_id in stop_times.txt at row "@ + at_row),
            Some(sid) => if !trip_ids.contains_key(tid@) {
                RowOutcome::Invalid(
                    "trip_id '"@ + tid@ + "' in stop_times.txt not found in trips.txt"@,
                )
            } else if !stop_ids.contains_key(sid@) {
                RowOutcome::Invalid(
                    "stop_id '"@ + sid@ + "' in stop_times.txt not found in stops.txt"@,
                )
            } else {
                match cell(c.arrivals, row) {
                    None => RowOutcome::Invalid(
                        "Missing arrival time in stop_times.txt for row "@ + at_row,
                    ),
                    Some(a) => match gtfs_time_reading(a@) {
                        GtfsTimeReading::Seconds(av) => match cell(c.departures, row) {
                            None => RowOutcome::Invalid(
                                "Missing arrival time in stop_times.txt for row "@ + at_row,
                            ),
                            Some(d) => match gtfs_time_reading(d@) {
                                GtfsTimeReading::Seconds(dv) => match cell(c.sequences, row) {
                                    None => RowOutcome::Invalid(
                                        "missing stop_sequence in stop_times.txt at row "@ + at_row,
                                    ),
                                    Some(q) => match parse_usize_spec(q@) {
                                        Some(qv) => RowOutcome::Entry {
                                            trip: trip_ids[tid@],
                                            entry: (
                                                qv as usize,
                                                RaptorStopID { id: stop_ids[sid@] },
                                                av as usize,
                                                dv as usize,
                                            ),
                                        },
                                        None => RowOutcome::Invalid(
                                            "invalid stop_sequence '"@ + q@
                                                + "' in stop_times.txt at row "@ + at_row,
                                        ),
                                    },
                                },
                                _ => RowOutcome::BadTime(d@),
                            },
                        },
                        _ => RowOutcome::BadTime(a@),
                    },
                }
            }
        },
    }
}

/// Whether `e` is the error that a time text gives.
pub open spec fn time_error_is(e: TimeParsingError, text: Seq<char>) -> bool {
    match gtfs_time_reading(text) {
        GtfsTimeReading::Seconds(_) => false,
        GtfsTimeReading::BadFormat => e matches TimeParsingError::InvalidFormat(t) && t@ == text,
        GtfsTimeReading::BadMinutes(m) => e matches TimeParsingError::InvalidComponent(n, p)
            && n@ == "minutes"@ && p@ == m,
        GtfsTimeReading::BadSeconds(x) => e matches TimeParsingError::InvalidComponent(n, p)
            && n@ == "seconds"@ && p@ == x,
    }
}

/// Whether `e` is the error of row `row` whose outcome is `o`.
pub open spec fn row_error_is(e: RaptorError, o: RowOutcome, row: int) -> bool {
    match o {
        RowOutcome::Entry { .. } => false,
        RowOutcome::Invalid(msg) => e matches RaptorError::InvalidGtfs(m) && m@ == msg,
        RowOutcome::BadTime(text) => e matches RaptorError::StopTimeParsingError { row: r, source }
            && r == row && time_error_is(source, text),
    }
}

/// Index of the first entry whose stop sequence is above `k`, in a list ordered by it.
pub open spec fn upper_bound(s: Seq<StopTimeEntry>, k: usize) -> int
    decreases s.len(),
{
    if s.len() == 0 {
        0
    } else if s[0].0 > k {
        0
    } else {
        1 + upper_bound(s.drop_first(), k)
    }
}

/// Inserts a stop time after every stop time with the same or a lower stop sequence.
pub open spec fn insert_by_sequence(s: Seq<StopTimeEntry>, e: StopTimeEntry) -> Seq<StopTimeEntry> {
    s.insert(upper_bound(s, e.0), e)
}

/// The stop times of the first `n` rows, grouped by trip, each group ordered by stop
/// sequence with rows of equal sequence in row order; or the outcome of the first invalid
/// row and its index.
pub open spec fn stop_times_upto(
    c: StopTimeColumns,
    trip_ids: Map<Seq<char>, usize>,
    stop_ids: Map<Seq<char>, usize>,
    n: nat,
) -> Result<Map<usize, Seq<StopTimeEntry>>, (RowOutcome, int)>
    decreases n,
{
    if n == 0 {
        Ok(Map::empty())
    } else {
        match stop_times_upto(c, trip_ids, stop_ids, (n - 1) as nat) {
            Err(f) => Err(f),
            Ok(m) => match row_outcome(c, trip_ids, stop_ids, n - 1) {
                RowOutcome::Entry { trip, entry } => {
                    let group = if m.contains_key(trip) {
                        m[trip]
                    } else {
                        Seq::empty()
                    };
                    Ok(m.insert(trip, insert_by_sequence(group, entry)))
                },
                o => Err((o, n - 1)),
            },
        }
    }
}

/// Every time text in the column that reads as a time gives one that fits in `Seconds`.
pub open spec fn times_fit_in_column(col: Seq<Option<String>>) -> bool {
    forall|row: int| 0 <= row < col.len() ==> (#[trigger] col[row] matches Some(t) ==> time_fits(t@))
}

proof fn lemma_upper_bound(s: Seq<StopTimeEntry>, k: usize, p: int)
    requires
        0 <= p <= s.len(),
        forall|j: int| 0 <= j < p ==> (#[trigger] s[j]).0 <= k,
        p < s.len() ==> s[p].0 > k,
    ensures
        upper_bound(s, k) == p,
    decreases p,
{
    if p > 0 {
        assert forall|j: int| 0 <= j < p - 1 implies (#[trigger] s.drop_first()[j]).0 <= k by {
            assert(s.drop_first()[j] == s[j + 1]);
        }
        if p - 1 < s.drop_first().len() {
            assert(s.drop_first()[p - 1] == s[p]);
        }
        lemma_upper_bound(s.drop_first(), k, p - 1);
    }
}

/// Inserts a stop time after every stop time with the same or a lower stop sequence.
pub fn insert_stop_time(v: &mut Vec<StopTimeEntry>, e: StopTimeEntry)
    ensures
        final(v)@ == insert_by_sequence(old(v)@, e),
{
    let mut p: usize = 0;
    while p < v.len() && v[p].0 <= e.0
        invariant
            p <= v@.len(),
            forall|j: int| 0 <= j < p ==> (#[trigger] v@[j]).0 <= e.0,
        decreases v@.len() - p,
    {
        p = p + 1;
    }
    proof {
        lemma_upper_bound(v@, e.0, p as int);
    }
    v.insert(p, e);
}

/// Appends `n` to a message and returns it.
fn with_row(mut msg: String, n: usize) -> (res: String)
    ensures
        res@ == msg@ + decimal(n as nat),
{
    push_decimal(&mut msg, n);
    msg
}

/// Reads one row of `stop_times.txt`.
fn read_stop_time_row(
    trips: &Vec<Option<String>>,
    stops: &Vec<Option<String>>,
    arrivals: &Vec<Option<String>>,
    departures: &Vec<Option<String>>,
    sequences: &Vec<Option<String>>,
    id_map: &IdMap,
    row: usize,
) -> (res: Result<(usize, StopTimeEntry), RaptorError>)
    requires
        times_fit_in_column(arrivals@),
        times_fit_in_column(departures@),
    ensures
        ({
            let c = StopTimeColumns {
                trips: trips@,
                stops: stops@,
                arrivals: arrivals@,
                departures: departures@,
                sequences: sequences@,
            };
            match row_outcome(c, text_keyed(id_map.trips), text_keyed(id_map.stops), row as int) {
                RowOutcome::Entry { trip, entry } => res == Ok::<(usize, StopTimeEntry), RaptorError>(
                    (trip, entry),
                ),
                o => res matches Err(e) && row_error_is(e, o, row as int),
            }
        }),
{
    let tid = match get_cell(trips, row) {
        Some(t) => t,
        None => {
            return Err(RaptorError::InvalidGtfs(
                with_row(String::from_str("missing trip_id in stop_times.txt at row "), row),
            ));
        },
    };
    let sid = match get_cell(stops, row) {
        Some(t) => t,
        None => {
            return Err(RaptorError::InvalidGtfs(
                with_row(String::from_str("missing stop_id in stop_times.txt at row "), row),
            ));
        },
    };
    let trip = match text_map_get(&id_map.trips, tid.as_str()) {
        Some(t) => t,
        None => {
            let mut msg = String::from_str("trip_id '");
            msg.append(tid.as_str());
            msg.append("' in stop_times.txt not found in trips.txt");
            return Err(RaptorError::InvalidGtfs(msg));
        },
    };
    let stop = match text_map_get(&id_map.stops, sid.as_str()) {
        Some(t) => t,
        None => {
            let mut msg = String::from_str("stop_id '");
            msg.append(sid.as_str());
            msg.append("' in stop_times.txt not found in stops.txt");
            return Err(RaptorError::InvalidGtfs(msg));
        },
    };
    let arrival = match get_cell(arrivals, row) {
        Some(t) => {
            assert(arrivals@[row as int] matches Some(x) ==> time_fits(x@));
            match gtfs_time_to_seconds(t.as_str()) {
                Ok(v) => v,
                Err(e) => return Err(RaptorError::StopTimeParsingError { row, source: e }),
            }
        },
        None => {
            return Err(RaptorError::InvalidGtfs(
                with_row(String::from_str("Missing arrival time in stop_times.txt for row "), row),
            ));
        },
    };
    let departure = match get_cell(departures, row) {
        Some(t) => {
            assert(departures@[row as int] matches Some(x) ==> time_fits(x@));
            match gtfs_time_to_seconds(t.as_str()) {
                Ok(v) => v,
                Err(e) => return Err(RaptorError::StopTimeParsingError { row, source: e }),
            }
        },
        None => {
            return Err(RaptorError::InvalidGtfs(
                with_row(String::from_str("Missing arrival time in stop_times.txt for row "), row),
            ));
        },
    };
    let sequence = match get_cell(sequences, row) {
        Some(q) => {
            let qc = chars_of(q.as_str());
            proof {
                assert(qc@.subrange(0, qc@.len() as int) =~= q@);
            }
            match parse_usize_chars(&qc, 0, qc.len()) {
                Some(v) => v,
                None => {
                    let mut msg = String::from_str("invalid stop_sequence '");
                    msg.append(q.as_str());
                    msg.append("' in stop_times.txt at row ");
                    return Err(RaptorError::InvalidGtfs(with_row(msg, row)));
                },
            }
        },
        None => {
            return Err(RaptorError::InvalidGtfs(
                with_row(String::from_str("missing stop_sequence in stop_times.txt at row "), row),
            ));
        },
    };
    Ok((trip, (sequence, RaptorStopID::new(stop), arrival, departure)))
}

/// The groups of a map of vectors, as sequences.
pub open spec fn groups_view(r: Map<usize, Vec<StopTimeEntry>>) -> Map<usize, Seq<StopTimeEntry>> {
    Map::new(|t: usize| r.contains_key(t), |t: usize| r[t]@)
}

/// The columns of `stop_times.txt` as read, when all five are present.
pub open spec fn stop_time_columns(feed: RaptorGtfsFeed) -> Option<StopTimeColumns> {
    match (
        stop_times_column(feed, StopTimesColumns::TripID),
        stop_times_column(feed, StopTimesColumns::StopID),
        stop_times_column(feed, StopTimesColumns::ArrivalTime),
        stop_times_column(feed, StopTimesColumns::DepartureTime),
        stop_times_column(feed, StopTimesColumns::StopSequence),
    ) {
        (Some(trips), Some(stops), Some(arrivals), Some(departures), Some(sequences)) => Some(
            StopTimeColumns { trips, stops, arrivals, departures, sequences },
        ),
        _ => None,
    }
}

/// The first of the five columns of `stop_times.txt` that is missing, if any.
pub open spec fn first_missing_stop_times_column(feed: RaptorGtfsFeed) -> Option<Seq<char>> {
    if stop_times_column(feed, StopTimesColumns::TripID) is None {
        Some("trip_id"@)
    } else if stop_times_column(feed, StopTimesColumns::StopID) is None {
        Some("stop_id"@)
    } else if stop_times_column(feed, StopTimesColumns::ArrivalTime) is None {
        Some("arrival_time"@)
    } else if stop_times_column(feed, StopTimesColumns::DepartureTime) is None {
        Some("departure_time"@)
    } else if stop_times_column(feed, StopTimesColumns::StopSequence) is None {
        Some("stop_sequence"@)
    } else {
        None
    }
}

/// What reading `stop_times.txt` gives: the stop times of every trip, or the first
/// invalid row's outcome and index.
pub open spec fn read_stop_times(
    feed: RaptorGtfsFeed,
    id_map: IdMap,
) -> Result<Map<usize, Seq<StopTimeEntry>>, (RowOutcome, int)> {
    let c = stop_time_columns(feed).unwrap();
    stop_times_upto(c, text_keyed(id_map.trips), text_keyed(id_map.stops), c.trips.len())
}

proof fn lemma_stop_times_err_stays(
    c: StopTimeColumns,
    trip_ids: Map<Seq<char>, usize>,
    stop_ids: Map<Seq<char>, usize>,
    k: nat,
    n: nat,
)
    requires
        k <= n,
        stop_times_upto(c, trip_ids, stop_ids, k) is Err,
    ensures
        stop_times_upto(c, trip_ids, stop_ids, n) == stop_times_upto(c, trip_ids, stop_ids, k),
    decreases n,
{
    if n > k {
        lemma_stop_times_err_stays(c, trip_ids, stop_ids, k, (n - 1) as nat);
    }
}

/// Groups the rows of `stop_times.txt` by trip. Each trip's stop times are ordered by
/// stop sequence (rows of equal sequence keep their order). The first row that lacks a
/// cell, names an unknown trip or stop, or holds a bad time or sequence is an error.
pub fn build_stop_times_by_trip(feed: &RaptorGtfsFeed, id_map: &IdMap) -> (res: Result<
    StopTimesByTrip,
    RaptorError,
>)
    requires
        stop_times_column(*feed, StopTimesColumns::ArrivalTime) matches Some(c)
            ==> times_fit_in_column(c),
        stop_times_column(*feed, StopTimesColumns::DepartureTime) matches Some(c)
            ==> times_fit_in_column(c),
    ensures
        match first_missing_stop_times_column(*feed) {
            Some(name) => res matches Err(e) && missing_column(e, name),
            None => match read_stop_times(*feed, *id_map) {
                Ok(m) => res matches Ok(r) && groups_view(r@) == m,
                Err((o, row)) => res matches Err(e) && row_error_is(e, o, row),
            },
        },
{
    let trips = match feed.stop_times.column(StopTimesColumns::TripID.name()) {
        Ok(c) => c,
        Err(e) => return Err(e),
    };
    let stops = match feed.stop_times.column(StopTimesColumns::StopID.name()) {
        Ok(c) => c,
        Err(e) => return Err(e),
    };
    let arrivals = match feed.stop_times.column(StopTimesColumns::ArrivalTime.name()) {
        Ok(c) => c,
        Err(e) => return Err(e),
    };
    let departures = match feed.stop_times.column(StopTimesColumns::DepartureTime.name()) {
        Ok(c) => c,
        Err(e) => return Err(e),
    };
    let sequences = match feed.stop_times.column(StopTimesColumns::StopSequence.name()) {
        Ok(c) => c,
        Err(e) => return Err(e),
    };
    let ghost c = StopTimeColumns {
        trips: trips@,
        stops: stops@,
        arrivals: arrivals@,
        departures: departures@,
        sequences: sequences@,
    };
    assert(stop_time_columns(*feed) == Some(c));
    let ghost mt = text_keyed(id_map.trips);
    let ghost ms = text_keyed(id_map.stops);
    let mut by_trip: StopTimesByTrip = HashMap::new();
    let mut row: usize = 0;
    proof {
        assert(groups_view(by_trip@) =~= Map::<usize, Seq<StopTimeEntry>>::empty());
    }
    while row < trips.len()
        invariant
            row <= trips@.len(),
            c == (StopTimeColumns {
                trips: trips@,
                stops: stops@,
                arrivals: arrivals@,
                departures: departures@,
                sequences: sequences@,
            }),
            mt == text_keyed(id_map.trips),
            ms == text_keyed(id_map.stops),
            stop_time_columns(*feed) == Some(c),
            first_missing_stop_times_column(*feed) is None,
            times_fit_in_column(arrivals@),
            times_fit_in_column(departures@),
            stop_times_upto(c, mt, ms, row as nat) == Ok::<
                Map<usize, Seq<StopTimeEntry>>,
                (RowOutcome, int),
            >(groups_view(by_trip@)),
        decreases trips@.len() - row,
    {
        match read_stop_time_row(trips, stops, arrivals, departures, sequences, id_map, row) {
            Ok((trip, entry)) => {
                let ghost before = groups_view(by_trip@);
                let mut group = match by_trip.remove(&trip) {
                    Some(g) => g,
                    None => Vec::new(),
                };
                assert(group@ == (if before.contains_key(trip) {
                    before[trip]
                } else {
                    Seq::empty()
                }));
                insert_stop_time(&mut group, entry);
                let ghost g = group@;
                by_trip.insert(trip, group);
                proof {
                    assert(groups_view(by_trip@) =~= before.insert(trip, g));
                }
            },
            Err(e) => {
                proof {
                    assert(stop_times_upto(c, mt, ms, (row + 1) as nat) == Err::<
                        Map<usize, Seq<StopTimeEntry>>,
                        (RowOutcome, int),
                    >((row_outcome(c, mt, ms, row as int), row as int)));
                    lemma_stop_times_err_stays(c, mt, ms, (row + 1) as nat, trips@.len());
                }
                return Err(e);
            },
        }
        row = row + 1;
    }
    Ok(by_trip)
}

/// Stop times ordered by stop sequence.
pub open spec fn sequence_ordered(s: Seq<StopTimeEntry>) -> bool {
    forall|i: int, j: int| 0 <= i < j < s.len() ==> (#[trigger] s[i]).0 <= (#[trigger] s[j]).0
}

proof fn lemma_upper_bound_splits(s: Seq<StopTimeEntry>, k: usize)
    requires
        sequence_ordered(s),
    ensures
        0 <= upper_bound(s, k) <= s.len(),
        forall|j: int| 0 <= j < upper_bound(s, k) ==> (#[trigger] s[j]).0 <= k,
        forall|j: int| upper_bound(s, k) <= j < s.len() ==> (#[trigger] s[j]).0 > k,
    decreases s.len(),
{
    if s.len() > 0 {
        let t = s.drop_first();
        assert forall|i: int, j: int| 0 <= i < j < t.len() implies (#[trigger] t[i]).0 <= (
        #[trigger] t[j]).0 by {
            assert(t[i] == s[i + 1] && t[j] == s[j + 1]);
        }
        lemma_upper_bound_splits(t, k);
        if s[0].0 > k {
            assert forall|j: int| 0 <= j < s.len() implies (#[trigger] s[j]).0 > k by {
                if j > 0 {
                    assert(s[0].0 <= s[j].0);
                }
            }
        } else {
            assert forall|j: int| 0 <= j < upper_bound(s, k) implies (#[trigger] s[j]).0 <= k by {
                if j > 0 {
                    assert(s[j] == t[j - 1]);
                }
            }
            assert forall|j: int| upper_bound(s, k) <= j < s.len() implies (#[trigger] s[j]).0 > k by {
                assert(s[j] == t[j - 1]);
            }
        }
    }
}

/// Inserting a stop time by its sequence keeps stop times ordered by sequence.
pub proof fn lemma_insert_keeps_sequence_order(s: Seq<StopTimeEntry>, e: StopTimeEntry)
    requires
        sequence_ordered(s),
    ensures
        sequence_ordered(insert_by_sequence(s, e)),
        insert_by_sequence(s, e).len() == s.len() + 1,
        insert_by_sequence(s, e).to_multiset() == s.to_multiset().insert(e),
{
    lemma_upper_bound_splits(s, e.0);
    let p = upper_bound(s, e.0);
    let r = insert_by_sequence(s, e);
    s.insert_ensures(p, e);
    assert forall|i: int, j: int| 0 <= i < j < r.len() implies (#[trigger] r[i]).0 <= (#[trigger] r[j]).0 by {
        if i < p && j < p {
        } else if i < p && j == p {
        } else if i < p {
            assert(r[j] == s[j - 1]);
        } else if i == p {
            assert(r[j] == s[j - 1]);
        } else {
            assert(r[i] == s[i - 1] && r[j] == s[j - 1]);
        }
    }
    vstd::seq_lib::lemma_seq_union_to_multiset_commutative(s.subrange(0, p), s.subrange(p, s.len() as int));
    assert(s.subrange(0, p) + s.subrange(p, s.len() as int) =~= s);
    vstd::seq_lib::lemma_multiset_commutative(s.subrange(0, p).push(e), s.subrange(p, s.len() as int));
    vstd::seq_lib::lemma_multiset_commutative(s.subrange(0, p), s.subrange(p, s.len() as int));
    s.subrange(0, p).to_multiset_ensures();
}

/// The stop times of every trip come out ordered by stop sequence.
pub proof fn lemma_stop_times_ordered(
    c: StopTimeColumns,
    trip_ids: Map<Seq<char>, usize>,
    stop_ids: Map<Seq<char>, usize>,
    rows: nat,
)
    ensures
        stop_times_upto(c, trip_ids, stop_ids, rows) matches Ok(m) ==> forall|t: usize|
            #[trigger] m.contains_key(t) ==> sequence_ordered(m[t]),
    decreases rows,
{
    if rows > 0 {
        lemma_stop_times_ordered(c, trip_ids, stop_ids, (rows - 1) as nat);
        match stop_times_upto(c, trip_ids, stop_ids, (rows - 1) as nat) {
            Ok(m) => match row_outcome(c, trip_ids, stop_ids, rows - 1) {
                RowOutcome::Entry { trip, entry } => {
                    let group = if m.contains_key(trip) {
                        m[trip]
                    } else {
                        Seq::empty()
                    };
                    lemma_insert_keeps_sequence_order(group, entry);
                },
                _ => {},
            },
            Err(_) => {},
        }
    }
}

} // verus!
