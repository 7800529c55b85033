# gtfsfabrik

An all-in-one tool for GTFS transit data: it sets up a "fabrik" plant (a directory
with its TOML manifest), checks GTFS and OSM inputs, and answers earliest-arrival
queries between stops with a round-based (RAPTOR) search.

The library in `src/` is written in Verus: every function carries a `requires` /
`ensures` contract that the verifier proves. The command-line program in `app/` does
the file, archive and terminal work around it.

## Layout

- `src/text.rs`, `src/datetime.rs`: text helpers and GTFS `HH:MM:SS` times.
- `src/errors.rs`: the error types and their messages.
- `src/gtfs_columns.rs`, `src/gtfs_files.rs`, `src/gtfs_types.rs`: GTFS files, their
  columns, and which files a feed must have.
- `src/osm_files.rs`, `src/osm_types.rs`, `src/paths.rs`: OSM input checks and paths.
- `src/commands.rs`, `src/fabrik.rs`: the commands and the plant's manifest.
- `src/raptor/`: the routing.
  - `feed.rs`, `ids.rs`, `loader.rs`, `routes.rs`, `timetable.rs`: from GTFS tables
    to dense ids, stop times, routes and the timetable.
  - `types.rs`, `tables.rs`, `checks.rs`: the timetable, journeys, and run-time checks.
  - `handler.rs`, `reach.rs`: the earliest-arrival search and the proof that its
    answer is a real journey and no later than any other.
  - `state.rs`, `simple.rs`: a simpler search that also rebuilds the journey.
  - `api.rs`, `cache.rs`: the front end by GTFS stop id, and the cache file naming.
  - `mcraptor.rs`: journeys compared by arrival and by transfers, from the
    earliest-arrival search.
- `tests/`: tests of the library.
- `app/`: the `gtfsfabrik` program.

## What is proved about routing

Every earliest-arrival query starts from cleared tables, and its answer meets
`query_answer`, a statement over the timetable and the query's arguments alone. The
arrival time returned is that of a journey of the timetable (rides along trips and walks
along transfers, each starting no earlier than the previous one ends) with no more
boardings than allowed, and never before the departure: an arrival found before it,
which only trips going back in time allow (the loader gives time zero at a stop a trip
skips), is refused. Where nothing arrives before the departure, the answer is no later
than any single walk from the origin or any direct ride on a route whose trips never
overtake one another, and a stop is reached from itself at once. When moreover trips
never overtake one another nor leave at the time that stands for "never", it is no later
than any journey that walks at most once, from the origin, and rides from then on, and
when walks also compose (two walks in a row are never quicker than some single walk) no
later than any journey at all. (Both rely on every position of a route
being listed among the routes serving its stop, which the timetable builder proves of
the timetables it builds.) Under those conditions two answers to the same query are
equal, and leaving earlier or allowing more transfers never arrives later.

Each answer carries its journey, which starts at the origin, with no more rides than
allowed, and arrives at the time found.

The simpler search returns legs the timetable offers, in time order, arriving no later
than any single walk or direct ride from where a route first meets the origin. The
multi-criteria query runs the earliest-arrival search for one ride up to `MAX_ROUNDS`
rides and returns the journeys found that no other one beats on arrival or transfers
while matching it on the other; under the conditions above, every journey with at most
`MAX_ROUNDS` rides is matched by one of them arriving no later with no more transfers.
