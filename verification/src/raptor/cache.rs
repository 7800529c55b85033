use vstd::bytes::{spec_u64_to_le_bytes, u64_to_le_bytes};
use vstd::prelude::*;
use vstd::string::StrSliceExecFns;
use vstd::utf8::encode_utf8;

use crate::errors::RaptorError;
use crate::gtfs_columns::{RouteColumns, StopColumns, StopTimesColumns, TripColumns};
use crate::paths::{path_exists, path_join, spec_path_join};
use crate::raptor::feed::{cell, get_cell, table_column, table_height, RaptorGtfsFeed};
use crate::raptor::loader::missing_column;

verus! {

/// Where built timetables are kept, one file per feed.
#[derive(Debug, Clone)]
pub struct RaptorCache {
    pub cache_dir: String,
}

/// Names what `xxhash_rust::xxh64::xxh64` gives for some bytes and a seed.
pub uninterp spec fn xxh64_hash(data: Seq<u8>, seed: u64) -> u64;

/// `xxh64` of `data` with `seed`: the XXH64 digest, which depends on the bytes and the
/// seed alone (the streaming `Xxh64` hasher gives the same digest for the same bytes fed
/// in pieces).
#[verifier::external_body]
fn xxh64_digest(data: &Vec<u8>, seed: u64) -> (res: u64)
    ensures
        res == xxh64_hash(data@, seed),
{
    xxhash_rust::xxh64::xxh64(data.as_slice(), seed)
}

/// `dirs::cache_dir`: the system's cache directory, as text, if it has one. What comes
/// back depends on the system and its environment; nothing is stated of it.
#[verifier::external_body]
fn system_cache_dir() -> (res: Option<String>) {
    dirs::cache_dir().map(|p| p.to_string_lossy().into_owned())
}

/// The message of a cache directory that does not exist.
pub open spec fn no_cache_dir_message(dir: Seq<char>) -> Seq<char> {
    "No directory exists at cache path: '"@ + dir + "'"@
}

/// The cache directory under a system cache directory: `<base>/gtfsfabrik/raptor`.
pub open spec fn cache_dir_under(base: Seq<char>) -> Seq<char> {
    spec_path_join(spec_path_join(base, "gtfsfabrik"@), "raptor"@)
}

/// Keeps a cache directory that exists, or names the one that does not.
pub fn checked_dir(cache_dir: String, exists: bool) -> (res: Result<String, RaptorError>)
    ensures
        exists ==> (res matches Ok(d) && d@ == cache_dir@),
        !exists ==> (res matches Err(RaptorError::CacheError(m)) && m@ == no_cache_dir_message(
            cache_dir@,
        )),
{
    if !exists {
        let mut msg = String::from_str("No directory exists at cache path: '");
        msg.append(cache_dir.as_str());
        msg.append("'");
        return Err(RaptorError::CacheError(msg));
    }
    Ok(cache_dir)
}

/// The default cache directory under the system's cache directory, if there is one.
pub fn cache_dir_from(base: Option<String>) -> (res: Result<String, RaptorError>)
    ensures
        match base {
            Some(b) => res matches Ok(d) && d@ == cache_dir_under(b@),
            None => res matches Err(RaptorError::CacheError(m))
                && m@ == "Could not find your system's cache directory"@,
        },
{
    match base {
        Some(b) => {
            let app_dir = path_join(b.as_str(), "gtfsfabrik");
            Ok(path_join(app_dir.as_str(), "raptor"))
        },
        None => Err(RaptorError::CacheError(String::from_str("Could not find your system's cache directory"))),
    }
}

/// The text of a cell, or nothing where the cell is empty.
pub open spec fn cell_text(cells: Seq<Option<String>>, row: int) -> Seq<char> {
    match cell(cells, row) {
        Some(s) => s@,
        None => Seq::empty(),
    }
}

/// The bytes hashed to name a feed's cache file: the number of rows of stops, stop
/// times, trips and routes (each as eight little-endian bytes), then the UTF-8 text of
/// the middle stop id, stop-time stop id, trip id and route id, and of the arrival times
/// at the middle, the first quarter, three quarters and the first third of the stop
/// times.
pub open spec fn feed_fingerprint(
    feed: RaptorGtfsFeed,
    stop_ids: Seq<Option<String>>,
    stop_time_stops: Seq<Option<String>>,
    trip_ids: Seq<Option<String>>,
    route_ids: Seq<Option<String>>,
    arrivals: Seq<Option<String>>,
) -> Seq<u8> {
    let ns = table_height(feed.stops);
    let nst = table_height(feed.stop_times);
    let nt = table_height(feed.trips);
    let nr = table_height(feed.routes);
    spec_u64_to_le_bytes(ns as u64) + spec_u64_to_le_bytes(nst as u64) + spec_u64_to_le_bytes(
        nt as u64,
    ) + spec_u64_to_le_bytes(nr as u64) + encode_utf8(cell_text(stop_ids, (ns / 2) as int))
        + encode_utf8(cell_text(stop_time_stops, (nst / 2) as int)) + encode_utf8(
        cell_text(trip_ids, (nt / 2) as int),
    ) + encode_utf8(cell_text(route_ids, (nr / 2) as int)) + encode_utf8(
        cell_text(arrivals, (nst / 2) as int),
    ) + encode_utf8(cell_text(arrivals, (nst / 4) as int)) + encode_utf8(
        cell_text(arrivals, (3 * nst / 4) as int),
    ) + encode_utf8(cell_text(arrivals, (nst / 3) as int))
}

/// Feeds that agree on what the fingerprint samples (the four row counts, and the
/// sampled cells of the stop, stop-time, trip and route id columns and of the arrival
/// times) get the same cache file in a directory.
pub proof fn lemma_equal_samples_same_cache_file(
    dir: Seq<char>,
    f1: RaptorGtfsFeed,
    s1: Seq<Option<String>>,
    sts1: Seq<Option<String>>,
    t1: Seq<Option<String>>,
    r1: Seq<Option<String>>,
    a1: Seq<Option<String>>,
    f2: RaptorGtfsFeed,
    s2: Seq<Option<String>>,
    sts2: Seq<Option<String>>,
    t2: Seq<Option<String>>,
    r2: Seq<Option<String>>,
    a2: Seq<Option<String>>,
)
    requires
        table_height(f1.stops) == table_height(f2.stops),
        table_height(f1.stop_times) == table_height(f2.stop_times),
        table_height(f1.trips) == table_height(f2.trips),
        table_height(f1.routes) == table_height(f2.routes),
        cell_text(s1, (table_height(f1.stops) / 2) as int) == cell_text(s2, (table_height(f1.stops) / 2) as int),
        cell_text(sts1, (table_height(f1.stop_times) / 2) as int) == cell_text(
            sts2,
            (table_height(f1.stop_times) / 2) as int,
        ),
        cell_text(t1, (table_height(f1.trips) / 2) as int) == cell_text(t2, (table_height(f1.trips) / 2) as int),
        cell_text(r1, (table_height(f1.routes) / 2) as int) == cell_text(r2, (table_height(f1.routes) / 2) as int),
        forall|row: int|
            row == (table_height(f1.stop_times) / 2) as int || row == (table_height(f1.stop_times) / 4) as int
                || row == (3 * table_height(f1.stop_times) / 4) as int || row == (table_height(f1.stop_times) / 3) as int
                ==> #[trigger] cell_text(a1, row) == cell_text(a2, row),
    ensures
        feed_fingerprint(f1, s1, sts1, t1, r1, a1) == feed_fingerprint(f2, s2, sts2, t2, r2, a2),
        spec_path_join(dir, cache_file_name(xxh64_hash(feed_fingerprint(f1, s1, sts1, t1, r1, a1), 0)))
            == spec_path_join(dir, cache_file_name(xxh64_hash(feed_fingerprint(f2, s2, sts2, t2, r2, a2), 0))),
{
    let nst = table_height(f1.stop_times);
    assert(cell_text(a1, (nst / 2) as int) == cell_text(a2, (nst / 2) as int));
    assert(cell_text(a1, (nst / 4) as int) == cell_text(a2, (nst / 4) as int));
    assert(cell_text(a1, (3 * nst / 4) as int) == cell_text(a2, (3 * nst / 4) as int));
    assert(cell_text(a1, (nst / 3) as int) == cell_text(a2, (nst / 3) as int));
}

/// Powers of sixteen.
pub open spec fn pow16(k: nat) -> nat
    decreases k,
{
    if k == 0 {
        1
    } else {
        16 * pow16((k - 1) as nat)
    }
}

pub open spec fn hex_char(d: nat) -> char {
    if d < 10 {
        crate::text::digit_char(d)
    } else if d == 10 {
        'a'
    } else if d == 11 {
        'b'
    } else if d == 12 {
        'c'
    } else if d == 13 {
        'd'
    } else if d == 14 {
        'e'
    } else {
        'f'
    }
}

/// `h` as sixteen lowercase hexadecimal digits, zero-padded (`{:016x}`).
pub open spec fn hex16(h: u64) -> Seq<char> {
    Seq::new(16, |i: int| hex_char((h as nat / pow16((15 - i) as nat)) % 16))
}

/// The name of a feed's cache file: its hash in hex, then `.bin`.
pub open spec fn cache_file_name(h: u64) -> Seq<char> {
    hex16(h) + ".bin"@
}

fn hex_digit_str(d: u64) -> (res: &'static str)
    requires
        d < 16,
    ensures
        res@ == seq![hex_char(d as nat)],
{
    if d < 10 {
        crate::text::digit_str(d as usize)
    } else {
        proof {
            reveal_strlit("a");
            reveal_strlit("b");
            reveal_strlit("c");
            reveal_strlit("d");
            reveal_strlit("e");
            reveal_strlit("f");
        }
        if d == 10 {
            "a"
        } else if d == 11 {
            "b"
        } else if d == 12 {
            "c"
        } else if d == 13 {
            "d"
        } else if d == 14 {
            "e"
        } else {
            "f"
        }
    }
}

proof fn lemma_pow16_pos(k: nat)
    ensures
        pow16(k) > 0,
    decreases k,
{
    if k > 0 {
        lemma_pow16_pos((k - 1) as nat);
    }
}

proof fn lemma_pow16_step(k: nat)
    requires
        k > 0,
    ensures
        pow16(k) / 16 == pow16((k - 1) as nat),
        pow16(k) > 0,
    decreases k,
{
    if k > 1 {
        lemma_pow16_step((k - 1) as nat);
    }
    assert(pow16(k) == 16 * pow16((k - 1) as nat));
    assert((16 * pow16((k - 1) as nat)) / 16 == pow16((k - 1) as nat)) by (nonlinear_arith);
}

/// Writes `h` as sixteen zero-padded lowercase hexadecimal digits.
fn hex16_text(h: u64) -> (res: String)
    ensures
        res@ == hex16(h),
{
    let mut out = String::new();
    let mut div: u64 = 0x1000_0000_0000_0000;
    let mut i: usize = 0;
    proof {
        reveal_with_fuel(pow16, 16);
        assert(pow16(15) == 0x1000_0000_0000_0000);
    }
    while i < 16
        invariant
            i <= 16,
            i < 16 ==> div as nat == pow16((15 - i) as nat),
            i < 16 ==> div > 0,
            out@ == hex16(h).take(i as int),
        decreases 16 - i,
    {
        let d = (h / div) % 16;
        out.append(hex_digit_str(d));
        proof {
            assert(out@ =~= hex16(h).take(i + 1));
            if i < 15 {
                lemma_pow16_step((15 - i) as nat);
                lemma_pow16_pos((14 - i) as nat);
            }
        }
        div = div / 16;
        i = i + 1;
    }
    proof {
        assert(hex16(h).take(16) =~= hex16(h));
    }
    out
}

/// The text of a cell, or an empty text.
fn cell_text_at(cells: &Vec<Option<String>>, row: usize) -> (res: Vec<u8>)
    ensures
        res@ == encode_utf8(cell_text(cells@, row as int)),
{
    match get_cell(cells, row) {
        Some(s) => s.as_str().as_bytes_vec(),
        None => {
            proof {
                reveal_strlit("");
            }
            "".as_bytes_vec()
        },
    }
}

impl RaptorCache {
    /// The cache directory under the system's cache directory; an error where the
    /// system has none.
    pub fn default_cache_dir() -> (res: Result<String, RaptorError>)
        ensures
            res matches Ok(d) ==> exists|base: Seq<char>| d@ == #[trigger] cache_dir_under(base),
            res matches Err(e) ==> (e matches RaptorError::CacheError(m)
                && m@ == "Could not find your system's cache directory"@),
    {
        cache_dir_from(system_cache_dir())
    }

    /// Checks that a cache directory exists.
    pub fn validate_dir(cache_dir: String) -> (res: Result<String, RaptorError>)
        ensures
            res matches Ok(d) ==> d@ == cache_dir@,
            res matches Err(e) ==> (e matches RaptorError::CacheError(m) && m@ == no_cache_dir_message(
                cache_dir@,
            )),
    {
        let exists = path_exists(cache_dir.as_str());
        checked_dir(cache_dir, exists)
    }

    /// A cache kept in an existing directory.
    pub fn new(cache_dir: String) -> (res: Result<Self, RaptorError>)
        ensures
            res matches Ok(c) ==> c.cache_dir@ == cache_dir@,
            res matches Err(e) ==> (e matches RaptorError::CacheError(m) && m@ == no_cache_dir_message(
                cache_dir@,
            )),
    {
        match Self::validate_dir(cache_dir) {
            Ok(dir) => Ok(Self { cache_dir: dir }),
            Err(e) => Err(e),
        }
    }

    /// A cache kept in the system's cache directory, under `gtfsfabrik/raptor`.
    pub fn default() -> (res: Result<Self, RaptorError>)
        ensures
            res matches Err(e) ==> (e matches RaptorError::CacheError(m) && (m@
                == "Could not find your system's cache directory"@ || exists|b: Seq<char>|
                m@ == no_cache_dir_message(#[trigger] cache_dir_under(b)))),
            res matches Ok(c) ==> exists|b: Seq<char>| c.cache_dir@ == #[trigger] cache_dir_under(b),
    {
        let base = system_cache_dir();
        let ghost gb = base;
        match cache_dir_from(base) {
            Ok(dir) => {
                let ghost d = dir@;
                let r = Self::new(dir);
                proof {
                    let b = gb.unwrap()@;
                    assert(d == cache_dir_under(b));
                }
                r
            },
            Err(e) => Err(e),
        }
    }

    /// The path of the cache file of a feed: the XXH64 hash (seed zero) of the feed's
    /// fingerprint, as sixteen hex digits followed by `.bin`, in the cache directory.
    pub fn hash_feed(&self, gtfs_feed: &RaptorGtfsFeed) -> (res: Result<String, RaptorError>)
        ensures
            match (
                table_column(gtfs_feed.stops, StopColumns::StopID.column_name()),
                table_column(gtfs_feed.stop_times, StopTimesColumns::StopID.column_name()),
                table_column(gtfs_feed.trips, TripColumns::TripID.column_name()),
                table_column(gtfs_feed.routes, RouteColumns::RouteID.column_name()),
                table_column(gtfs_feed.stop_times, StopTimesColumns::ArrivalTime.column_name()),
            ) {
                (None, _, _, _, _) => res matches Err(e) && missing_column(e, "stop_id"@),
                (Some(_), None, _, _, _) => res matches Err(e) && missing_column(e, "stop_id"@),
                (Some(_), Some(_), None, _, _) => res matches Err(e) && missing_column(e, "trip_id"@),
                (Some(_), Some(_), Some(_), None, _) => res matches Err(e) && missing_column(
                    e,
                    "route_id"@,
                ),
                (Some(_), Some(_), Some(_), Some(_), None) => res matches Err(e) && missing_column(
                    e,
                    "arrival_time"@,
                ),
                (Some(s), Some(sts), Some(t), Some(r), Some(a)) => res matches Ok(p) && p@
                    == spec_path_join(
                    self.cache_dir@,
                    cache_file_name(xxh64_hash(feed_fingerprint(*gtfs_feed, s, sts, t, r, a), 0)),
                ),
            },
    {
        let num_stops = gtfs_feed.stops.height();
        let num_stop_times = gtfs_feed.stop_times.height();
        let num_trips = gtfs_feed.trips.height();
        let num_routes = gtfs_feed.routes.height();
        let stop_ids = match gtfs_feed.stops.column(StopColumns::StopID.name()) {
            Ok(c) => c,
            Err(e) => return Err(e),
        };
        let stop_time_ids = match gtfs_feed.stop_times.column(StopTimesColumns::StopID.name()) {
            Ok(c) => c,
            Err(e) => return Err(e),
        };
        let trip_ids = match gtfs_feed.trips.column(TripColumns::TripID.name()) {
            Ok(c) => c,
            Err(e) => return Err(e),
        };
        let route_ids = match gtfs_feed.routes.column(RouteColumns::RouteID.name()) {
            Ok(c) => c,
            Err(e) => return Err(e),
        };
        let arrival_times = match gtfs_feed.stop_times.column(StopTimesColumns::ArrivalTime.name()) {
            Ok(c) => c,
            Err(e) => return Err(e),
        };
        let mut data: Vec<u8> = u64_to_le_bytes(num_stops as u64);
        let mut b = u64_to_le_bytes(num_stop_times as u64);
        data.append(&mut b);
        let mut b = u64_to_le_bytes(num_trips as u64);
        data.append(&mut b);
        let mut b = u64_to_le_bytes(num_routes as u64);
        data.append(&mut b);
        let mut b = cell_text_at(stop_ids, num_stops / 2);
        data.append(&mut b);
        let mut b = cell_text_at(stop_time_ids, num_stop_times / 2);
        data.append(&mut b);
        let mut b = cell_text_at(trip_ids, num_trips / 2);
        data.append(&mut b);
        let mut b = cell_text_at(route_ids, num_routes / 2);
        data.append(&mut b);
        let mut b = cell_text_at(arrival_times, num_stop_times / 2);
        data.append(&mut b);
        let mut b = cell_text_at(arrival_times, num_stop_times / 4);
        data.append(&mut b);
        let three_quarters = if num_stop_times <= usize::MAX / 3 {
            3 * num_stop_times / 4
        } else {
            num_stop_times / 4 * 3 + (num_stop_times % 4) * 3 / 4
        };
        proof {
            assert(three_quarters == 3 * num_stop_times / 4) by (nonlinear_arith)
                requires
                    num_stop_times <= usize::MAX / 3 ==> three_quarters == 3 * num_stop_times / 4,
                    num_stop_times > usize::MAX / 3 ==> three_quarters == num_stop_times / 4 * 3
                        + (num_stop_times % 4) * 3 / 4,
            ;
        }
        let mut b = cell_text_at(arrival_times, three_quarters);
        data.append(&mut b);
        let mut b = cell_text_at(arrival_times, num_stop_times / 3);
        data.append(&mut b);
        proof {
            assert(data@ =~= feed_fingerprint(
                *gtfs_feed,
                stop_ids@,
                stop_time_ids@,
                trip_ids@,
                route_ids@,
                arrival_times@,
            ));
        }
        let hash = xxh64_digest(&data, 0);
        let mut name = hex16_text(hash);
        name.append(".bin");
        proof {
            reveal_strlit(".bin");
        }
        Ok(path_join(self.cache_dir.as_str(), name.as_str()))
    }
}

} // verus!
