use vstd::prelude::*;

use crate::errors::RaptorError;
use crate::gtfs_columns::StopTimesColumns;
use crate::raptor::feed::RaptorGtfsFeed;
use crate::raptor::ids::{text_keyed, IdMap};
use crate::raptor::loader::{
    build_stops, first_empty, missing_column, named_slots, read_stop_times, stop_ids_dense,
    stop_times_column, stops_names, stops_stop_ids, times_fit_in_column,
};
use crate::raptor::routes::{
    build_routes, dense, routes_built, routes_of, routes_shaped, trip_routes_upto,
    trips_route_ids, trips_trip_col,
};
use crate::raptor::reach::{lemma_built_serving_complete_some, serving_complete};
use crate::raptor::types::{RaptorTimetable, RaptorTransfer};

verus! {

/// Walks that lead from each of `n` stops to stops below `n`, one list per stop.
pub open spec fn transfers_fit(transfers: Seq<Vec<RaptorTransfer>>, n: nat) -> bool {
    &&& transfers.len() == n
    &&& forall|s: int, k: int|
        0 <= s < transfers.len() && 0 <= k < transfers[s]@.len() ==> (
        #[trigger] transfers[s]@[k]).to_stop.id < n
}

/// Builds the timetable of a feed from its stops, its routes and the walks between its
/// stops (one list per stop). Errors of the stops come before those of the routes.
pub fn build_timetable(
    feed: &RaptorGtfsFeed,
    id_map: &IdMap,
    transfers: Vec<Vec<RaptorTransfer>>,
) -> (res: Result<RaptorTimetable, RaptorError>)
    requires
        stops_stop_ids(*feed) matches Some(c) ==> stop_ids_dense(c, text_keyed(id_map.stops)),
        dense(text_keyed(id_map.stops)),
        stop_times_column(*feed, StopTimesColumns::ArrivalTime) matches Some(c)
            ==> times_fit_in_column(c),
        stop_times_column(*feed, StopTimesColumns::DepartureTime) matches Some(c)
            ==> times_fit_in_column(c),
        transfers_fit(transfers@, text_keyed(id_map.stops).dom().len()),
    ensures
        match stops_stop_ids(*feed) {
            None => res matches Err(e) && missing_column(e, "stop_id"@),
            Some(c) => {
                let n = text_keyed(id_map.stops).dom().len();
                let slots = named_slots(c, stops_names(*feed), text_keyed(id_map.stops), n);
                match first_empty(slots) {
                    Some(k) => res matches Err(RaptorError::MissingStop(j)) && j == k,
                    None => match (trips_trip_col(*feed), trips_route_ids(*feed)) {
                        (None, _) => res matches Err(e) && missing_column(e, "trip_id"@),
                        (Some(_), None) => res matches Err(e) && missing_column(e, "route_id"@),
                        (Some(tc), Some(rc)) => match trip_routes_upto(
                            tc,
                            rc,
                            text_keyed(id_map.trips),
                            text_keyed(id_map.routes),
                            tc.len(),
                        ) {
                            Err(m) => res matches Err(RaptorError::InvalidGtfs(x)) && x@ == m,
                            Ok(tr) => match crate::raptor::loader::first_missing_stop_times_column(*feed) {
                                Some(name) => res matches Err(e) && missing_column(e, name),
                                None => match read_stop_times(*feed, *id_map) {
                                    Err((o, row)) => res matches Err(e)
                                        && crate::raptor::loader::row_error_is(e, o, row),
                                    Ok(st) => match routes_of(tr, st) {
                                        Err(m) => res matches Err(RaptorError::InvalidGtfs(x))
                                            && x@ == m,
                                        Ok(rs) => res matches Ok(tt) && tt.wf() && tt.transfers@
                                            == transfers@ && tt.stops@.len() == n && (forall|k: int|
                                            0 <= k < n ==> (#[trigger] tt.stops@[k]).stop_id.id == k
                                                && slots[k] == Some(tt.stops@[k].name@))
                                            && routes_built(
                                            tt.routes@,
                                            tt.routes_serving_stops@,
                                            rs,
                                            n,
                                        ) && serving_complete(&tt),
                                    },
                                },
                            },
                        },
                    },
                }
            },
        },
{
    let stops = match build_stops(feed, id_map) {
        Ok(s) => s,
        Err(e) => return Err(e),
    };
    let (routes, routes_serving_stops) = match build_routes(feed, id_map) {
        Ok(r) => r,
        Err(e) => return Err(e),
    };
    let tt = RaptorTimetable { stops, routes, transfers, routes_serving_stops };
    proof {
        assert(routes_shaped(tt.routes@, tt.routes_serving_stops@, text_keyed(id_map.stops).dom().len()));
        lemma_built_serving_complete_some(&tt, text_keyed(id_map.stops).dom().len());
    }
    Ok(tt)
}

} // verus!
