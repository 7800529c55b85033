use gtfsfabrik::raptor::types::{Journey, Leg, RaptorTripID};
use gtfsfabrik::raptor::cache::{cache_dir_from, checked_dir};
use gtfsfabrik::errors::RaptorError;
use gtfsfabrik::raptor::api::Raptor;
use gtfsfabrik::raptor::cache::RaptorCache;
use gtfsfabrik::raptor::feed::{GtfsColumn, GtfsTable, RaptorGtfsFeed};
use gtfsfabrik::raptor::handler::RaptorHandler;
use gtfsfabrik::raptor::ids::{IdMap, Invertible};
use gtfsfabrik::raptor::loader::{build_stop_times_by_trip, build_stops, map_ids};
use gtfsfabrik::raptor::routes::build_routes;
use gtfsfabrik::raptor::simple::SimpleRaptor;
use gtfsfabrik::raptor::timetable::build_timetable;
use gtfsfabrik::raptor::types::{RaptorStopID, RaptorTransfer};
use gtfsfabrik::raptor::types::{
    RaptorRoute, RaptorRouteServingStop, RaptorStop, RaptorStopTime, RaptorTimetable, RaptorTrip, TimetableRouteID,
};

fn col(name: &str, cells: &[Option<&str>]) -> GtfsColumn {
    GtfsColumn { name: name.to_string(), cells: cells.iter().map(|c| c.map(|s| s.to_string())).collect() }
}

fn sample_feed() -> RaptorGtfsFeed {
    let stops = GtfsTable {
        columns: vec![
            col("stop_id", &[Some("A"), Some("B"), Some("C")]),
            col("stop_name", &[Some("Alpha"), None, Some("Gamma")]),
        ],
    };
    let routes = GtfsTable { columns: vec![col("route_id", &[Some("R1")])] };
    let trips = GtfsTable {
        columns: vec![col("route_id", &[Some("R1"), Some("R1")]), col("trip_id", &[Some("T1"), Some("T2")])],
    };
    let stop_times = GtfsTable {
        columns: vec![
            col("trip_id", &[Some("T1"), Some("T1"), Some("T1"), Some("T2"), Some("T2"), Some("T2")]),
            col("arrival_time", &[Some("08:00:00"), Some("08:10:00"), Some("08:20:00"), Some("09:20:00"), Some("09:00:00"), Some("09:10:00")]),
            col("departure_time", &[Some("08:00:00"), Some("08:11:00"), Some("08:20:00"), Some("09:20:00"), Some("09:00:00"), Some("09:11:00")]),
            col("stop_id", &[Some("A"), Some("B"), Some("C"), Some("C"), Some("A"), Some("B")]),
            col("stop_sequence", &[Some("1"), Some("2"), Some("3"), Some("3"), Some("1"), Some("2")]),
        ],
    };
    RaptorGtfsFeed { routes, trips, stops, stop_times }
}

fn no_walks(n: usize) -> Vec<Vec<RaptorTransfer>> {
    (0..n).map(|_| Vec::new()).collect()
}

#[test]
fn ids_are_last_rows() {
    let feed = sample_feed();
    let ids = map_ids(&feed).unwrap();
    assert_eq!(ids.stops.get("A"), Some(&0));
    assert_eq!(ids.stops.get("C"), Some(&2));
    assert_eq!(ids.trips.get("T2"), Some(&1));
    assert_eq!(ids.routes.get("R1"), Some(&0));
    assert_eq!(ids.gtfs_id_to_raptor_id("B").unwrap(), RaptorStopID::new(1));
}

#[test]
fn unknown_gtfs_id_is_named() {
    let ids = map_ids(&sample_feed()).unwrap();
    assert!(matches!(ids.gtfs_id_to_raptor_id("Z"), Err(RaptorError::InvalidGtfs(m)) if m == "Could not find GTFS id: Z"));
}

#[test]
fn id_map_round_trip() {
    let ids = map_ids(&sample_feed()).unwrap();
    let rev = ids.invert();
    assert_eq!(rev.raptor_id_to_gtfs_id(RaptorStopID::new(2)).unwrap(), "C");
    assert!(matches!(rev.raptor_id_to_gtfs_id(RaptorStopID::new(9)), Err(RaptorError::InvalidGtfs(m)) if m == "Could not find Raptor id: 9"));
    let back: IdMap = rev.invert();
    assert_eq!(back.stops, ids.stops);
    assert_eq!(back.trips, ids.trips);
    assert_eq!(back.routes, ids.routes);
}

#[test]
fn missing_column_is_named() {
    let mut feed = sample_feed();
    feed.stops.columns.remove(0);
    assert!(matches!(map_ids(&feed), Err(RaptorError::PolarsError(m)) if m == "not found: \"stop_id\" not found"));
}

#[test]
fn stops_named_or_by_id() {
    let feed = sample_feed();
    let ids = map_ids(&feed).unwrap();
    let stops = build_stops(&feed, &ids).unwrap();
    assert_eq!(stops.len(), 3);
    assert_eq!(stops[0].name, "Alpha");
    assert_eq!(stops[1].name, "B");
    assert_eq!(stops[2].stop_id, RaptorStopID::new(2));
}

#[test]
fn stop_times_grouped_and_ordered() {
    let feed = sample_feed();
    let ids = map_ids(&feed).unwrap();
    let by_trip = build_stop_times_by_trip(&feed, &ids).unwrap();
    let t2 = by_trip.get(&1).unwrap();
    let seqs: Vec<usize> = t2.iter().map(|e| e.0).collect();
    assert_eq!(seqs, vec![1, 2, 3]);
    assert_eq!(t2[0].2, 9 * 3600);
    assert_eq!(by_trip.get(&0).unwrap().len(), 3);
}

#[test]
fn bad_time_names_row() {
    let mut feed = sample_feed();
    feed.stop_times.columns[1].cells[4] = Some(String::from("9:xx:00"));
    let ids = map_ids(&feed).unwrap();
    assert!(matches!(build_stop_times_by_trip(&feed, &ids), Err(RaptorError::StopTimeParsingError { row: 4, .. })));
}

#[test]
fn unknown_trip_in_stop_times() {
    let mut feed = sample_feed();
    feed.stop_times.columns[0].cells[2] = Some(String::from("T9"));
    let ids = map_ids(&feed).unwrap();
    assert!(matches!(build_stop_times_by_trip(&feed, &ids),
        Err(RaptorError::InvalidGtfs(m)) if m == "trip_id 'T9' in stop_times.txt not found in trips.txt"));
}

#[test]
fn missing_sequence_names_row() {
    let mut feed = sample_feed();
    feed.stop_times.columns[4].cells[3] = None;
    let ids = map_ids(&feed).unwrap();
    assert!(matches!(build_stop_times_by_trip(&feed, &ids),
        Err(RaptorError::InvalidGtfs(m)) if m == "missing stop_sequence in stop_times.txt at row 3"));
}

#[test]
fn routes_built_in_order() {
    let feed = sample_feed();
    let ids = map_ids(&feed).unwrap();
    let (routes, serving) = build_routes(&feed, &ids).unwrap();
    assert_eq!(routes.len(), 1);
    assert_eq!(routes[0].stops, vec![RaptorStopID::new(0), RaptorStopID::new(1), RaptorStopID::new(2)]);
    assert_eq!(routes[0].trips.len(), 2);
    assert_eq!(routes[0].trips[0].stop_times[0].departure, 8 * 3600);
    assert_eq!(routes[0].trips[1].stop_times[2].arrival, 9 * 3600 + 20 * 60);
    assert_eq!(serving.len(), 3);
    assert_eq!(serving[1][0].stop_sequence, 1);
}

#[test]
fn trips_ordered_by_departure() {
    let mut feed = sample_feed();
    // the second trip now leaves first
    for c in [1usize, 2] {
        feed.stop_times.columns[c].cells[4] = Some(String::from("07:00:00"));
    }
    let ids = map_ids(&feed).unwrap();
    let (routes, _) = build_routes(&feed, &ids).unwrap();
    assert_eq!(routes[0].trips[0].trip_id.id, 1);
    assert_eq!(routes[0].trips[1].trip_id.id, 0);
}

#[test]
fn trip_row_without_route_is_refused() {
    let mut feed = sample_feed();
    feed.trips.columns[0].cells[1] = None;
    let ids = map_ids(&feed).unwrap();
    assert!(matches!(build_routes(&feed, &ids),
        Err(RaptorError::InvalidGtfs(m)) if m == "Missing route_id in trips.txt for row 1"));
}

#[test]
fn stop_off_route_is_refused() {
    let mut feed = sample_feed();
    // stops.txt gains a stop D that only the second trip visits
    feed.stops.columns[0].cells.push(Some(String::from("D")));
    feed.stops.columns[1].cells.push(Some(String::from("Delta")));
    feed.stop_times.columns[3].cells[3] = Some(String::from("D"));
    let ids = map_ids(&feed).unwrap();
    assert!(matches!(build_routes(&feed, &ids),
        Err(RaptorError::InvalidGtfs(m)) if m == "stop 'RaptorStopID { id: 3 }' in trip 'RaptorTripID { id: 1 }' stop_times not found in route stop sequence"));
}

#[test]
fn timetable_and_travel_time() {
    let feed = sample_feed();
    let ids = map_ids(&feed).unwrap();
    let tt = build_timetable(&feed, &ids, no_walks(3)).unwrap();
    assert!(tt.check_wf());
    let cache = RaptorCache { cache_dir: String::from("/tmp") };
    let mut raptor = Raptor::assemble(String::from("feed"), cache, feed, tt, ids);
    // leave A at 07:55, ride the 08:00 trip, reach C at 08:20
    assert_eq!(raptor.travel_time("A", "C", 7 * 3600 + 55 * 60, 1).unwrap(), 25 * 60);
    // asking again gives the same answer
    assert_eq!(raptor.travel_time("A", "C", 7 * 3600 + 55 * 60, 1).unwrap(), 25 * 60);
    // the same stop is reached at once
    assert_eq!(raptor.travel_time("B", "B", 100, 1).unwrap(), 0);
}

#[test]
fn travel_time_errors() {
    let feed = sample_feed();
    let ids = map_ids(&feed).unwrap();
    let tt = build_timetable(&feed, &ids, no_walks(3)).unwrap();
    let mut raptor = Raptor::assemble(String::from("feed"), RaptorCache { cache_dir: String::from("/tmp") }, feed, tt, ids);
    assert!(matches!(raptor.travel_time("Z", "C", 0, 1), Err(RaptorError::InvalidGtfs(m)) if m == "Unknown stop Z"));
    // after the last trip nothing leaves
    assert!(matches!(raptor.travel_time("A", "C", 10 * 3600, 1), Err(RaptorError::DestinationUnreachable { .. })));
    // going back along the route is impossible
    assert!(matches!(raptor.travel_time("C", "A", 0, 1), Err(RaptorError::DestinationUnreachable { .. })));
}

#[test]
fn walking_reaches_neighbour() {
    let feed = sample_feed();
    let ids = map_ids(&feed).unwrap();
    let mut walks = no_walks(3);
    walks[2].push(RaptorTransfer { to_stop: RaptorStopID::new(0), walk_time: 600 });
    let tt = build_timetable(&feed, &ids, walks).unwrap();
    let mut handler = RaptorHandler::new(tt);
    let r = handler.query(RaptorStopID::new(2), RaptorStopID::new(0), 1000, Some(2)).unwrap();
    assert_eq!(r.earliest_arrival_time, 1600);
    assert_eq!(r.travel_time, 600);
}

#[test]
fn simple_raptor_journey() {
    let feed = sample_feed();
    let ids = map_ids(&feed).unwrap();
    let tt = build_timetable(&feed, &ids, no_walks(3)).unwrap();
    let sr = SimpleRaptor::new(tt);
    let j = sr.query(RaptorStopID::new(0), RaptorStopID::new(2), 8 * 3600 + 30 * 60, 2).unwrap();
    assert_eq!(j.legs.len(), 1);
    assert_eq!(j.legs[0].leg_end_time, 9 * 3600 + 20 * 60);
    assert_eq!(j.arrival_time(), 9 * 3600 + 20 * 60);
    assert_eq!(j.num_transfers(), 0);
    let same = sr.query(RaptorStopID::new(1), RaptorStopID::new(1), 0, 2).unwrap();
    assert_eq!(same.legs.len(), 0);
}

#[test]
fn cache_file_named_by_hash() {
    let feed = sample_feed();
    let cache = RaptorCache { cache_dir: String::from("/tmp/cache") };
    let p = cache.hash_feed(&feed).unwrap();
    assert!(p.starts_with("/tmp/cache/"));
    assert!(p.ends_with(".bin"));
    let name = &p["/tmp/cache/".len()..p.len() - 4];
    assert_eq!(name.len(), 16);
    assert!(name.chars().all(|c| c.is_ascii_hexdigit() && !c.is_ascii_uppercase()));
    assert_eq!(cache.hash_feed(&sample_feed()).unwrap(), p);
    let mut other = sample_feed();
    other.stops.columns[0].cells[1] = Some(String::from("Q"));
    assert_ne!(cache.hash_feed(&other).unwrap(), p);
}

#[test]
fn cache_dir_checks() {
    assert_eq!(checked_dir(String::from("/a"), true).unwrap(), "/a");
    assert!(matches!(checked_dir(String::from("/a"), false),
        Err(RaptorError::CacheError(m)) if m == "No directory exists at cache path: '/a'"));
    assert_eq!(cache_dir_from(Some(String::from("/home/u/.cache"))).unwrap(), "/home/u/.cache/gtfsfabrik/raptor");
    assert!(matches!(cache_dir_from(None), Err(RaptorError::CacheError(m)) if m == "Could not find your system's cache directory"));
    assert!(RaptorCache::new(String::from("/tmp")).is_ok());
    assert!(RaptorCache::new(String::from("/tmp/no/such/dir/here")).is_err());
}

fn named_raptor() -> Raptor {
    let mut feed = sample_feed();
    feed.routes.columns.push(col("route_short_name", &[Some("1")]));
    feed.routes.columns.push(col("route_long_name", &[Some("Main Street")]));
    let ids = map_ids(&feed).unwrap();
    let tt = build_timetable(&feed, &ids, no_walks(3)).unwrap();
    Raptor::assemble(String::from("feed"), RaptorCache { cache_dir: String::from("/tmp") }, feed, tt, ids)
}

#[test]
fn stop_and_route_names() {
    let raptor = named_raptor();
    assert_eq!(raptor.raptor_stop_id_to_name(&RaptorStopID::new(0)).unwrap(), "Alpha");
    assert!(matches!(raptor.raptor_stop_id_to_name(&RaptorStopID::new(1)),
        Err(RaptorError::InvalidGtfs(m)) if m == "Missing stop_name for stop_id B"));
    assert!(matches!(raptor.raptor_stop_id_to_name(&RaptorStopID::new(7)), Err(RaptorError::UnknownError(_))));
    let trip = RaptorTripID::new(0);
    assert_eq!(raptor.raptor_trip_id_to_name(&trip).unwrap(), "1: Main Street");
}

#[test]
fn route_name_needs_name_columns() {
    let feed = sample_feed();
    let ids = map_ids(&feed).unwrap();
    let tt = build_timetable(&feed, &ids, no_walks(3)).unwrap();
    let raptor = Raptor::assemble(String::from("feed"), RaptorCache { cache_dir: String::from("/tmp") }, feed, tt, ids);
    let trip = RaptorTripID::new(0);
    assert!(matches!(raptor.raptor_trip_id_to_name(&trip), Err(RaptorError::PolarsError(m)) if m == "not found: \"route_short_name\" not found"));
}

#[test]
fn journey_made_readable() {

    let raptor = named_raptor();
    let leg = Leg {
        origin_stop: RaptorStopID::new(0),
        destination_stop: RaptorStopID::new(2),
        leg_start_time: 8 * 3600,
        leg_end_time: 8 * 3600 + 20 * 60,
        trip_id: Some(RaptorTripID::new(0)),
    };
    let j = Journey::new(RaptorStopID::new(0), RaptorStopID::new(2), 7 * 3600 + 55 * 60, vec![leg]);
    let text = raptor.make_human_readable(&j, 25 * 60).unwrap();
    assert_eq!(
        text,
        "Alpha to Gamma: \nDEPART AT: 07:55:00 | ARRIVE AT: 08:20:00 | TOTAL TRAVEL TIME: 00:25:00\nAlpha => Gamma [1: Main Street] | 08:00:00-08:20:00 | (00:20:00 travel time)\n"
    );
    let empty = Journey::new(RaptorStopID::new(0), RaptorStopID::new(2), 0, vec![]);
    assert!(matches!(raptor.make_human_readable(&empty, 0), Err(RaptorError::EmptyJourney)));
}

#[test]
fn direct_ride_bounds_arrival() {
    let feed = sample_feed();
    let ids = map_ids(&feed).unwrap();
    let tt = build_timetable(&feed, &ids, no_walks(3)).unwrap();
    let mut handler = RaptorHandler::new(tt);
    // the 08:00 trip has left A at 08:05; the 09:00 trip reaches B at 09:10 without a transfer
    let r = handler.query(RaptorStopID::new(0), RaptorStopID::new(1), 8 * 3600 + 5 * 60, Some(0)).unwrap();
    assert_eq!(r.earliest_arrival_time, 9 * 3600 + 10 * 60);
    assert_eq!(r.travel_time, 65 * 60);
}

fn two_route_feed() -> RaptorGtfsFeed {
    let stops = GtfsTable { columns: vec![col("stop_id", &[Some("A"), Some("B"), Some("C")])] };
    let routes = GtfsTable { columns: vec![col("route_id", &[Some("R1"), Some("R2")])] };
    let trips = GtfsTable {
        columns: vec![col("route_id", &[Some("R1"), Some("R2")]), col("trip_id", &[Some("T1"), Some("T2")])],
    };
    let stop_times = GtfsTable {
        columns: vec![
            col("trip_id", &[Some("T1"), Some("T1"), Some("T2"), Some("T2")]),
            col("arrival_time", &[Some("08:00:00"), Some("08:10:00"), Some("08:15:00"), Some("08:30:00")]),
            col("departure_time", &[Some("08:00:00"), Some("08:10:00"), Some("08:15:00"), Some("08:30:00")]),
            col("stop_id", &[Some("A"), Some("B"), Some("B"), Some("C")]),
            col("stop_sequence", &[Some("1"), Some("2"), Some("1"), Some("2")]),
        ],
    };
    RaptorGtfsFeed { routes, trips, stops, stop_times }
}

#[test]
fn change_at_a_stop_needs_a_transfer() {
    let feed = two_route_feed();
    let ids = map_ids(&feed).unwrap();
    let tt = build_timetable(&feed, &ids, no_walks(3)).unwrap();
    let mut raptor = Raptor::assemble(String::from("feed"), RaptorCache { cache_dir: String::from("/tmp") }, feed, tt, ids);
    // ride T1 from A to B, change to T2 at B, arrive at C at 08:30
    assert_eq!(raptor.travel_time("A", "C", 7 * 3600 + 50 * 60, 1).unwrap(), 40 * 60);
    // without a transfer C cannot be reached
    assert!(matches!(raptor.travel_time("A", "C", 7 * 3600 + 50 * 60, 0), Err(RaptorError::DestinationUnreachable { .. })));
}

#[test]
fn ride_walk_ride_journey() {
    let stops = GtfsTable { columns: vec![col("stop_id", &[Some("A"), Some("B"), Some("C"), Some("D")])] };
    let routes = GtfsTable { columns: vec![col("route_id", &[Some("R1"), Some("R2")])] };
    let trips = GtfsTable {
        columns: vec![col("route_id", &[Some("R1"), Some("R2")]), col("trip_id", &[Some("T1"), Some("T2")])],
    };
    let stop_times = GtfsTable {
        columns: vec![
            col("trip_id", &[Some("T1"), Some("T1"), Some("T2"), Some("T2")]),
            col("arrival_time", &[Some("08:00:00"), Some("08:10:00"), Some("08:15:00"), Some("08:30:00")]),
            col("departure_time", &[Some("08:00:00"), Some("08:10:00"), Some("08:15:00"), Some("08:30:00")]),
            col("stop_id", &[Some("A"), Some("B"), Some("D"), Some("C")]),
            col("stop_sequence", &[Some("1"), Some("2"), Some("1"), Some("2")]),
        ],
    };
    let feed = RaptorGtfsFeed { routes, trips, stops, stop_times };
    let ids = map_ids(&feed).unwrap();
    let mut walks = no_walks(4);
    // two minutes on foot from B to D
    walks[1].push(RaptorTransfer { to_stop: RaptorStopID::new(3), walk_time: 120 });
    let tt = build_timetable(&feed, &ids, walks).unwrap();
    let mut handler = RaptorHandler::new(tt);
    let r = handler.query(RaptorStopID::new(0), RaptorStopID::new(2), 7 * 3600 + 50 * 60, Some(1)).unwrap();
    assert_eq!(r.earliest_arrival_time, 8 * 3600 + 30 * 60);
    assert_eq!(r.travel_time, 40 * 60);
}

#[test]
fn simple_raptor_legs_in_time_order() {
    let feed = two_route_feed();
    let ids = map_ids(&feed).unwrap();
    let tt = build_timetable(&feed, &ids, no_walks(3)).unwrap();
    let sr = SimpleRaptor::new(tt);
    let j = sr.query(RaptorStopID::new(0), RaptorStopID::new(2), 7 * 3600 + 50 * 60, 3).unwrap();
    assert_eq!(j.legs.len(), 2);
    assert_eq!(j.legs[0].destination_stop, RaptorStopID::new(1));
    assert!(j.legs[0].leg_end_time <= j.legs[1].leg_start_time);
    assert_eq!(j.arrival_time(), 8 * 3600 + 30 * 60);
}

#[test]
fn empty_journey_to_itself_takes_no_time() {
    let stay = Journey::new(RaptorStopID::new(1), RaptorStopID::new(1), 500, vec![]);
    assert_eq!(stay.total_travel_time().unwrap(), 0);
    let nowhere = Journey::new(RaptorStopID::new(0), RaptorStopID::new(1), 500, vec![]);
    assert!(matches!(nowhere.total_travel_time(), Err(RaptorError::DestinationUnreachable { .. })));
}

#[test]
fn later_query_leaving_earlier_matches_fresh_handler() {
    let feed = sample_feed();
    let ids = map_ids(&feed).unwrap();
    let tt = build_timetable(&feed, &ids, no_walks(3)).unwrap();
    let mut used = RaptorHandler::new(tt.clone());
    // a first query leaving late reaches C by the 09:00 trip
    let late = used.query(RaptorStopID::new(0), RaptorStopID::new(2), 8 * 3600 + 30 * 60, Some(1)).unwrap();
    assert_eq!(late.earliest_arrival_time, 9 * 3600 + 20 * 60);
    // leaving earlier afterwards gives what a new handler gives: the 08:00 trip
    let early = used.query(RaptorStopID::new(0), RaptorStopID::new(2), 7 * 3600, Some(1)).unwrap();
    let mut fresh = RaptorHandler::new(tt);
    let fresh_early = fresh.query(RaptorStopID::new(0), RaptorStopID::new(2), 7 * 3600, Some(1)).unwrap();
    assert_eq!(early.earliest_arrival_time, 8 * 3600 + 20 * 60);
    assert_eq!(early.earliest_arrival_time, fresh_early.earliest_arrival_time);
    assert_eq!(early.travel_time, fresh_early.travel_time);
}

#[test]
fn origin_keeps_departure_despite_walk_to_itself() {
    let feed = sample_feed();
    let ids = map_ids(&feed).unwrap();
    let mut walks = no_walks(3);
    walks[0].push(RaptorTransfer { to_stop: RaptorStopID::new(0), walk_time: 300 });
    walks[0].push(RaptorTransfer { to_stop: RaptorStopID::new(1), walk_time: 900 });
    walks[0].push(RaptorTransfer { to_stop: RaptorStopID::new(1), walk_time: 400 });
    let tt = build_timetable(&feed, &ids, walks).unwrap();
    let mut handler = RaptorHandler::new(tt);
    let same = handler.query(RaptorStopID::new(0), RaptorStopID::new(0), 1000, Some(1)).unwrap();
    assert_eq!(same.earliest_arrival_time, 1000);
    assert_eq!(same.travel_time, 0);
    // of two walks to the same stop the quicker counts
    let walked = handler.query(RaptorStopID::new(0), RaptorStopID::new(1), 1000, Some(1)).unwrap();
    assert_eq!(walked.earliest_arrival_time, 1400);
}

#[test]
fn simple_raptor_same_stop_on_any_timetable() {
    let empty = RaptorTimetable {
        stops: vec![],
        routes: vec![],
        transfers: vec![],
        routes_serving_stops: vec![],
    };
    let sr = SimpleRaptor::new(empty);
    let j = sr.query(RaptorStopID::new(7), RaptorStopID::new(7), 42, 0).unwrap();
    assert_eq!(j.origin, RaptorStopID::new(7));
    assert_eq!(j.destination, RaptorStopID::new(7));
    assert_eq!(j.departure_time, 42);
    assert!(j.legs.is_empty());
}

#[test]
fn simple_raptor_rides_from_origin() {
    let feed = sample_feed();
    let ids = map_ids(&feed).unwrap();
    let tt = build_timetable(&feed, &ids, no_walks(3)).unwrap();
    let sr = SimpleRaptor::new(tt);
    // one round is enough to ride the 08:00 trip from A to B
    let j = sr.query(RaptorStopID::new(0), RaptorStopID::new(1), 7 * 3600, 1).unwrap();
    assert_eq!(j.legs.len(), 1);
    assert_eq!(j.legs[0].origin_stop, RaptorStopID::new(0));
    assert_eq!(j.legs[0].leg_end_time, 8 * 3600 + 10 * 60);
}

#[test]
fn multi_criteria_front() {
    let feed = sample_feed();
    let ids = map_ids(&feed).unwrap();
    let tt = build_timetable(&feed, &ids, no_walks(3)).unwrap();
    let mut mc = gtfsfabrik::raptor::mcraptor::Raptor::from_parts(String::from("feed"), feed, tt, ids);
    let front = mc.query(7 * 3600, "A", "C").unwrap();
    // one journey, on the 08:00 trip: more legs never arrive earlier here
    assert_eq!(front.len(), 1);
    assert_eq!(front[0].arrival_time(), 8 * 3600 + 20 * 60);
    assert_eq!(front[0].num_transfers(), 0);
    let stay = mc.query(7 * 3600, "B", "B").unwrap();
    assert_eq!(stay.len(), 1);
    assert!(stay[0].legs.is_empty());
    assert!(matches!(mc.query(7 * 3600, "C", "A"), Err(RaptorError::EmptyJourney)));
    assert!(matches!(mc.query(7 * 3600, "Z", "A"), Err(RaptorError::InvalidGtfs(m)) if m == "Could not find GTFS id: Z"));
}

#[test]
fn ids_dense_checked() {
    let ids = map_ids(&sample_feed()).unwrap();
    assert!(gtfsfabrik::raptor::ids::ids_dense(&ids.stops));
    let mut gappy = ids.stops.clone();
    gappy.insert(String::from("D"), 9);
    assert!(!gtfsfabrik::raptor::ids::ids_dense(&gappy));
}

#[test]
fn earlier_departure_never_arrives_later() {
    let feed = sample_feed();
    let ids = map_ids(&feed).unwrap();
    let tt = build_timetable(&feed, &ids, no_walks(3)).unwrap();
    let mut handler = RaptorHandler::new(tt);
    let late = handler.query(RaptorStopID::new(0), RaptorStopID::new(2), 8 * 3600 + 5 * 60, Some(0)).unwrap();
    let early = handler.query(RaptorStopID::new(0), RaptorStopID::new(2), 7 * 3600, Some(2)).unwrap();
    assert!(early.earliest_arrival_time <= late.earliest_arrival_time);
    assert_eq!(early.earliest_arrival_time, 8 * 3600 + 20 * 60);
    assert_eq!(late.earliest_arrival_time, 9 * 3600 + 20 * 60);
}

#[test]
fn multi_criteria_front_trades_transfers_for_time() {
    let stops = GtfsTable { columns: vec![col("stop_id", &[Some("A"), Some("B"), Some("C")])] };
    let routes = GtfsTable { columns: vec![col("route_id", &[Some("R1"), Some("R2"), Some("R3")])] };
    let trips = GtfsTable {
        columns: vec![
            col("route_id", &[Some("R1"), Some("R2"), Some("R3")]),
            col("trip_id", &[Some("SLOW"), Some("T2"), Some("T3")]),
        ],
    };
    let stop_times = GtfsTable {
        columns: vec![
            col("trip_id", &[Some("SLOW"), Some("SLOW"), Some("T2"), Some("T2"), Some("T3"), Some("T3")]),
            col("arrival_time", &[Some("08:00:00"), Some("10:00:00"), Some("08:00:00"), Some("08:30:00"), Some("08:40:00"), Some("09:00:00")]),
            col("departure_time", &[Some("08:00:00"), Some("10:00:00"), Some("08:00:00"), Some("08:30:00"), Some("08:40:00"), Some("09:00:00")]),
            col("stop_id", &[Some("A"), Some("C"), Some("A"), Some("B"), Some("B"), Some("C")]),
            col("stop_sequence", &[Some("1"), Some("2"), Some("1"), Some("2"), Some("1"), Some("2")]),
        ],
    };
    let feed = RaptorGtfsFeed { routes, trips, stops, stop_times };
    let ids = map_ids(&feed).unwrap();
    let tt = build_timetable(&feed, &ids, no_walks(3)).unwrap();
    let mut mc = gtfsfabrik::raptor::mcraptor::Raptor::from_parts(String::from("feed"), feed, tt, ids);
    let front = mc.query(7 * 3600, "A", "C").unwrap();
    // direct and slow, or with a change and sooner: neither beats the other
    assert_eq!(front.len(), 2);
    assert_eq!(front[0].arrival_time(), 10 * 3600);
    assert_eq!(front[0].num_transfers(), 0);
    assert_eq!(front[1].arrival_time(), 9 * 3600);
    assert_eq!(front[1].num_transfers(), 1);
}

#[test]
fn new_handler_answers_one_ride() {
    let tt = RaptorTimetable {
        stops: vec![
            RaptorStop { stop_id: RaptorStopID::new(0), name: String::from("A") },
            RaptorStop { stop_id: RaptorStopID::new(1), name: String::from("B") },
        ],
        routes: vec![RaptorRoute {
            route_id: TimetableRouteID::new(0),
            stops: vec![RaptorStopID::new(0), RaptorStopID::new(1)],
            trips: vec![RaptorTrip {
                trip_id: RaptorTripID::new(0),
                stop_times: vec![
                    RaptorStopTime { arrival: 100, departure: 100 },
                    RaptorStopTime { arrival: 400, departure: 400 },
                ],
            }],
        }],
        transfers: vec![vec![], vec![]],
        routes_serving_stops: vec![
            vec![RaptorRouteServingStop { route_id: TimetableRouteID::new(0), stop_sequence: 0 }],
            vec![RaptorRouteServingStop { route_id: TimetableRouteID::new(0), stop_sequence: 1 }],
        ],
    };
    let mut handler = RaptorHandler::new(tt);
    // no transfer still allows one trip, boarded when it leaves at the departure time
    let r = handler.query(RaptorStopID::new(0), RaptorStopID::new(1), 100, Some(0)).unwrap();
    assert_eq!(r.earliest_arrival_time, 400);
    assert_eq!(r.travel_time, 300);
    let stay = handler.query(RaptorStopID::new(1), RaptorStopID::new(1), 100, Some(0)).unwrap();
    assert_eq!(stay.travel_time, 0);
}

fn short_turn_feed() -> RaptorGtfsFeed {
    let stops = GtfsTable { columns: vec![col("stop_id", &[Some("A"), Some("B"), Some("C")])] };
    let routes = GtfsTable { columns: vec![col("route_id", &[Some("R1")])] };
    let trips = GtfsTable {
        columns: vec![col("route_id", &[Some("R1"), Some("R1")]), col("trip_id", &[Some("ALL"), Some("EXPRESS")])],
    };
    // the express trip does not stop at B
    let stop_times = GtfsTable {
        columns: vec![
            col("trip_id", &[Some("ALL"), Some("ALL"), Some("ALL"), Some("EXPRESS"), Some("EXPRESS")]),
            col("arrival_time", &[Some("00:01:40"), Some("00:03:20"), Some("00:05:00"), Some("00:02:30"), Some("00:05:50")]),
            col("departure_time", &[Some("00:01:40"), Some("00:03:20"), Some("00:05:00"), Some("00:02:30"), Some("00:05:50")]),
            col("stop_id", &[Some("A"), Some("B"), Some("C"), Some("A"), Some("C")]),
            col("stop_sequence", &[Some("1"), Some("2"), Some("3"), Some("1"), Some("3")]),
        ],
    };
    RaptorGtfsFeed { routes, trips, stops, stop_times }
}

#[test]
fn express_trip_skipping_a_stop_is_searched() {
    let feed = short_turn_feed();
    let ids = map_ids(&feed).unwrap();
    let tt = build_timetable(&feed, &ids, no_walks(3)).unwrap();
    assert!(tt.check_wf());
    let mut raptor = Raptor::assemble(String::from("feed"), RaptorCache { cache_dir: String::from("/tmp") }, feed, tt, ids);
    // leaving A at 100 s, the stopping trip reaches C at 300 s
    assert_eq!(raptor.travel_time("A", "C", 100, 1).unwrap(), 200);
}

#[test]
fn arrival_before_departure_is_refused() {
    let feed = short_turn_feed();
    let ids = map_ids(&feed).unwrap();
    let tt = build_timetable(&feed, &ids, no_walks(3)).unwrap();
    let mut handler = RaptorHandler::new(tt);
    // the express trip is given time zero at B, which it skips
    let r = handler.query(RaptorStopID::new(0), RaptorStopID::new(1), 120, Some(1));
    assert!(matches!(r, Err(RaptorError::InvalidGtfs(m)) if m == "A journey reaches the destination before the departure time"));
}

#[test]
fn unclosed_walks_can_hide_a_ride_then_walk() {
    // O walks to X in 5 minutes; a ride from O reaches X later; X walks on to Y
    let tt = RaptorTimetable {
        stops: vec![
            RaptorStop { stop_id: RaptorStopID::new(0), name: String::from("O") },
            RaptorStop { stop_id: RaptorStopID::new(1), name: String::from("X") },
            RaptorStop { stop_id: RaptorStopID::new(2), name: String::from("Y") },
        ],
        routes: vec![RaptorRoute {
            route_id: TimetableRouteID::new(0),
            stops: vec![RaptorStopID::new(0), RaptorStopID::new(1)],
            trips: vec![RaptorTrip {
                trip_id: RaptorTripID::new(0),
                stop_times: vec![
                    RaptorStopTime { arrival: 1000, departure: 1000 },
                    RaptorStopTime { arrival: 1800, departure: 1800 },
                ],
            }],
        }],
        transfers: vec![
            vec![RaptorTransfer { to_stop: RaptorStopID::new(1), walk_time: 300 }],
            vec![RaptorTransfer { to_stop: RaptorStopID::new(2), walk_time: 600 }],
            vec![],
        ],
        routes_serving_stops: vec![
            vec![RaptorRouteServingStop { route_id: TimetableRouteID::new(0), stop_sequence: 0 }],
            vec![RaptorRouteServingStop { route_id: TimetableRouteID::new(0), stop_sequence: 1 }],
            vec![],
        ],
    };
    let mut handler = RaptorHandler::new(tt);
    // riding to X (1800) and walking to Y (2400) is a journey with one walk after one
    // ride, but X was reached on foot first and walks are never taken from a stop reached
    // on foot: without a walk from O to Y, Y is not found
    let r = handler.query(RaptorStopID::new(0), RaptorStopID::new(2), 1000, Some(1));
    assert!(matches!(r, Err(RaptorError::DestinationUnreachable { .. })));
    let x = handler.query(RaptorStopID::new(0), RaptorStopID::new(1), 1000, Some(1)).unwrap();
    assert_eq!(x.earliest_arrival_time, 1300);
}

#[test]
fn query_gives_its_journey() {
    let feed = two_route_feed();
    let ids = map_ids(&feed).unwrap();
    let tt = build_timetable(&feed, &ids, no_walks(3)).unwrap();
    let mut handler = RaptorHandler::new(tt);
    let r = handler.query(RaptorStopID::new(0), RaptorStopID::new(2), 7 * 3600 + 50 * 60, Some(1)).unwrap();
    let j = r.diary.unwrap();
    assert_eq!(j.origin, RaptorStopID::new(0));
    assert_eq!(j.destination, RaptorStopID::new(2));
    assert_eq!(j.legs.len(), 2);
    assert_eq!(j.legs[0].origin_stop, RaptorStopID::new(0));
    assert_eq!(j.legs[0].destination_stop, RaptorStopID::new(1));
    assert_eq!(j.legs[1].leg_end_time, r.earliest_arrival_time);
    assert_eq!(j.num_transfers(), 1);
}

#[test]
fn trip_diary_is_the_query_journey() {
    let feed = sample_feed();
    let ids = map_ids(&feed).unwrap();
    let tt = build_timetable(&feed, &ids, no_walks(3)).unwrap();
    let mut raptor = Raptor::assemble(String::from("feed"), RaptorCache { cache_dir: String::from("/tmp") }, feed, tt, ids);
    let j = raptor.trip_diary("A", "C", 7 * 3600 + 55 * 60, 1).unwrap();
    assert_eq!(j.origin, RaptorStopID::new(0));
    assert_eq!(j.legs.len(), 1);
    assert_eq!(j.legs[0].leg_end_time, 8 * 3600 + 20 * 60);
    let text = raptor.trip_diary_readable("A", "C", 7 * 3600 + 55 * 60, 1);
    let direct = raptor.make_human_readable(&j, 25 * 60);
    assert_eq!(format!("{:?}", text), format!("{:?}", direct));
    assert!(matches!(raptor.trip_diary("Z", "C", 0, 1), Err(RaptorError::InvalidGtfs(m)) if m == "Unknown stop Z"));
}

#[test]
fn walk_from_origin_then_ride_without_closed_walks() {
    // O walks to X in 5 minutes and to Z in 1 minute, Z walks to X in 1 minute (walks do
    // not compose: O to X on foot through Z would take 2 minutes); a trip leaves X at
    // 1400 and reaches Y at 2000, and a later one leaves X at 1600
    let tt = RaptorTimetable {
        stops: vec![
            RaptorStop { stop_id: RaptorStopID::new(0), name: String::from("O") },
            RaptorStop { stop_id: RaptorStopID::new(1), name: String::from("X") },
            RaptorStop { stop_id: RaptorStopID::new(2), name: String::from("Y") },
            RaptorStop { stop_id: RaptorStopID::new(3), name: String::from("Z") },
        ],
        routes: vec![RaptorRoute {
            route_id: TimetableRouteID::new(0),
            stops: vec![RaptorStopID::new(1), RaptorStopID::new(2)],
            trips: vec![
                RaptorTrip {
                    trip_id: RaptorTripID::new(0),
                    stop_times: vec![
                        RaptorStopTime { arrival: 1400, departure: 1400 },
                        RaptorStopTime { arrival: 2000, departure: 2000 },
                    ],
                },
                RaptorTrip {
                    trip_id: RaptorTripID::new(1),
                    stop_times: vec![
                        RaptorStopTime { arrival: 1600, departure: 1600 },
                        RaptorStopTime { arrival: 2200, departure: 2200 },
                    ],
                },
            ],
        }],
        transfers: vec![
            vec![
                RaptorTransfer { to_stop: RaptorStopID::new(1), walk_time: 300 },
                RaptorTransfer { to_stop: RaptorStopID::new(3), walk_time: 60 },
            ],
            vec![],
            vec![],
            vec![RaptorTransfer { to_stop: RaptorStopID::new(1), walk_time: 60 }],
        ],
        routes_serving_stops: vec![
            vec![],
            vec![RaptorRouteServingStop { route_id: TimetableRouteID::new(0), stop_sequence: 0 }],
            vec![RaptorRouteServingStop { route_id: TimetableRouteID::new(0), stop_sequence: 1 }],
            vec![],
        ],
    };
    let mut handler = RaptorHandler::new(tt);
    // leaving at 1000, the walk reaches X at 1300 and the 1400 trip reaches Y at 2000
    let r = handler.query(RaptorStopID::new(0), RaptorStopID::new(2), 1000, Some(0)).unwrap();
    assert_eq!(r.earliest_arrival_time, 2000);
    assert_eq!(r.travel_time, 1000);
    // leaving at 1200, the walk reaches X at 1500: only the 1600 trip is left
    let r = handler.query(RaptorStopID::new(0), RaptorStopID::new(2), 1200, Some(0)).unwrap();
    assert_eq!(r.earliest_arrival_time, 2200);
}

#[test]
fn express_trip_ahead_of_stopping_trip() {
    let stops = GtfsTable { columns: vec![col("stop_id", &[Some("A"), Some("B"), Some("C")])] };
    let routes = GtfsTable { columns: vec![col("route_id", &[Some("R1")])] };
    let trips = GtfsTable {
        columns: vec![col("route_id", &[Some("R1"), Some("R1")]), col("trip_id", &[Some("ALL"), Some("EXPRESS")])],
    };
    // the express trip skips B and runs ahead of the stopping trip everywhere
    let stop_times = GtfsTable {
        columns: vec![
            col("trip_id", &[Some("ALL"), Some("ALL"), Some("ALL"), Some("EXPRESS"), Some("EXPRESS")]),
            col("arrival_time", &[Some("00:02:00"), Some("00:03:20"), Some("00:05:00"), Some("00:01:40"), Some("00:04:10")]),
            col("departure_time", &[Some("00:02:00"), Some("00:03:20"), Some("00:05:00"), Some("00:01:40"), Some("00:04:10")]),
            col("stop_id", &[Some("A"), Some("B"), Some("C"), Some("A"), Some("C")]),
            col("stop_sequence", &[Some("1"), Some("2"), Some("3"), Some("1"), Some("3")]),
        ],
    };
    let feed = RaptorGtfsFeed { routes, trips, stops, stop_times };
    let ids = map_ids(&feed).unwrap();
    let tt = build_timetable(&feed, &ids, no_walks(3)).unwrap();
    let mut raptor = Raptor::assemble(String::from("feed"), RaptorCache { cache_dir: String::from("/tmp") }, feed, tt, ids);
    // leaving A at 90 s, the express reaches C at 250 s
    assert_eq!(raptor.travel_time("A", "C", 90, 0).unwrap(), 160);
    // leaving A at 110 s, only the stopping trip is left: C at 300 s
    assert_eq!(raptor.travel_time("A", "C", 110, 0).unwrap(), 190);
}
