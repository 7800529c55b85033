use vstd::prelude::*;

use crate::datetime::Seconds;
use crate::errors::RaptorError;
use crate::raptor::feed::RaptorGtfsFeed;
use crate::raptor::ids::{text_keyed, IdMap};
use crate::raptor::handler::{max_boardings, query_answer, RaptorHandler};
use crate::raptor::reach::{all_routes_fifo, none_before, serving_complete, walks_closed};
use crate::raptor::state::RaptorState;
use crate::raptor::types::{attainable, count_rides, feasible_journey, legs_arrival, Journey, Leg, RaptorStopID, RaptorTimetable, INFINITY};

verus! {

/// The most legs a multi-criteria query lets a journey have: one more than the ten
/// transfers an earliest-arrival query allows by default.
pub const MAX_ROUNDS: usize = 11;

/// The transfers of a journey made of `legs`: one less than its rides, and none without
/// a ride.
pub open spec fn rides_transfers(legs: Seq<Leg>) -> nat {
    if count_rides(legs) == 0 {
        0
    } else {
        (count_rides(legs) - 1) as nat
    }
}

/// The transfers of a journey.
pub open spec fn transfers_of(j: Journey) -> nat {
    rides_transfers(j.legs@)
}

/// The rounds a search needs to find a journey made of `legs`: one per ride, and one
/// for a journey on foot.
pub open spec fn rounds_needed(legs: Seq<Leg>) -> nat {
    if count_rides(legs) == 0 {
        1
    } else {
        count_rides(legs)
    }
}

/// The conditions on a timetable under which an earliest-arrival search finds the
/// earliest arrival over all journeys that arrive no earlier than they leave: trips never
/// overtake one another and never leave at `INFINITY`, every position of a route is listed
/// among the routes serving its stop, and walks compose.
pub open spec fn searchable(tt: &RaptorTimetable) -> bool {
    &&& serving_complete(tt)
    &&& all_routes_fifo(tt)
    &&& tt.departures_finite()
    &&& walks_closed(tt)
}

/// Some journey of `js` arrives by `a` with at most `transfers` transfers.
pub open spec fn matched(js: Seq<Journey>, a: int, transfers: nat) -> bool {
    exists|i: int| 0 <= i < js.len() && legs_arrival((#[trigger] js[i]).legs@) <= a && transfers_of(js[i]) <= transfers
}

/// Journey `a` is at least as good as `b` on both criteria: it arrives no later and
/// transfers no more often.
pub open spec fn covers(a: Journey, b: Journey) -> bool {
    legs_arrival(a.legs@) <= legs_arrival(b.legs@) && transfers_of(a) <= transfers_of(b)
}

/// No journey of the list is at least as good as another one of it on both criteria.
pub open spec fn non_dominated(js: Seq<Journey>) -> bool {
    forall|i: int, j: int|
        0 <= i < js.len() && 0 <= j < js.len() && i != j ==> !covers(#[trigger] js[i], #[trigger] js[j])
}

/// Candidate `i` stays in the front: no other candidate beats it on one criterion while
/// matching it on the other, and no earlier candidate ties with it on both.
pub open spec fn kept(cands: Seq<Journey>, i: int) -> bool {
    forall|j: int|
        0 <= j < cands.len() && j != i ==> !(covers(#[trigger] cands[j], cands[i]) && (!covers(cands[i], cands[j])
            || j < i))
}

/// `j` is a candidate that stays in the front.
pub open spec fn front_member(cands: Seq<Journey>, j: Journey) -> bool {
    exists|i: int| 0 <= i < cands.len() && cands[i] == j && kept(cands, i)
}

/// `j` is a journey of the timetable from `origin` to `destination`, leaving no earlier
/// than `dep`, with at least one leg and at most `max_rides` rides.
pub open spec fn journey_found(
    tt: &RaptorTimetable,
    j: Journey,
    origin: RaptorStopID,
    destination: RaptorStopID,
    dep: Seconds,
    max_rides: nat,
) -> bool {
    &&& j.origin == origin
    &&& j.destination == destination
    &&& j.departure_time == dep
    &&& j.legs@.len() >= 1
    &&& feasible_journey(tt, origin, dep, j.legs@, destination, legs_arrival(j.legs@))
    &&& count_rides(j.legs@) <= max_rides
}

/// Every candidate is covered by one that stays in the front: follow better candidates,
/// by arrival, then transfers, then position, until none is better.
pub proof fn lemma_covered_by_kept(cands: Seq<Journey>, i: int, m: int) -> (k: int)
    requires
        0 <= i < cands.len(),
        0 <= m < cands.len(),
        covers(cands[m], cands[i]),
    ensures
        0 <= k < cands.len(),
        kept(cands, k),
        covers(cands[k], cands[i]),
    decreases legs_arrival(cands[m].legs@), transfers_of(cands[m]), m,
{
    if kept(cands, m) {
        m
    } else {
        let j = choose|j: int|
            0 <= j < cands.len() && j != m && (covers(#[trigger] cands[j], cands[m]) && (!covers(
                cands[m],
                cands[j],
            ) || j < m));
        lemma_covered_by_kept(cands, i, j)
    }
}

/// The journeys of `cands` that stay in the front, in their order.
fn pareto_front(cands: Vec<Journey>) -> (res: Vec<Journey>)
    ensures
        forall|o: int| 0 <= o < res@.len() ==> front_member(cands@, #[trigger] res@[o]),
        forall|i: int|
            0 <= i < cands@.len() && #[trigger] kept(cands@, i) ==> exists|o: int|
                0 <= o < res@.len() && res@[o] == cands@[i],
        non_dominated(res@),
{
    let ghost all = cands@;
    let n = cands.len();
    let mut keep: Vec<bool> = Vec::new();
    let mut i: usize = 0;
    while i < n
        invariant
            n == cands@.len(),
            all == cands@,
            i <= n,
            keep@.len() == i,
            forall|a: int| 0 <= a < i ==> (#[trigger] keep@[a] <==> kept(all, a)),
        decreases n - i,
    {
        let ai = cands[i].arrival_time();
        let ti = cands[i].num_transfers();
        let mut stays = true;
        let mut j: usize = 0;
        while j < n
            invariant
                n == cands@.len(),
                all == cands@,
                i < n,
                j <= n,
                ai == legs_arrival(all[i as int].legs@),
                ti == transfers_of(all[i as int]),
                stays <==> forall|b: int|
                    0 <= b < j && b != i ==> !(covers(#[trigger] all[b], all[i as int]) && (!covers(
                        all[i as int],
                        all[b],
                    ) || b < i)),
            decreases n - j,
        {
            if j != i {
                let aj = cands[j].arrival_time();
                let tj = cands[j].num_transfers();
                let j_covers = aj <= ai && tj <= ti;
                let i_covers = ai <= aj && ti <= tj;
                if j_covers && (!i_covers || j < i) {
                    stays = false;
                }
            }
            j = j + 1;
        }
        keep.push(stays);
        i = i + 1;
    }
    let mut rest = cands;
    let mut out: Vec<Journey> = Vec::new();
    let ghost mut picked: Seq<int> = Seq::empty();
    let mut i: usize = 0;
    while i < n
        invariant
            n == all.len(),
            i <= n,
            keep@.len() == n,
            forall|a: int| 0 <= a < n ==> (#[trigger] keep@[a] <==> kept(all, a)),
            rest@ == all.subrange(i as int, n as int),
            picked.len() == out@.len(),
            forall|o: int|
                0 <= o < picked.len() ==> 0 <= #[trigger] picked[o] < i && out@[o] == all[picked[o]] && kept(
                    all,
                    picked[o],
                ),
            forall|o: int, p: int| 0 <= o < p < picked.len() ==> #[trigger] picked[o] < #[trigger] picked[p],
            forall|a: int|
                0 <= a < i && #[trigger] kept(all, a) ==> exists|o: int| 0 <= o < picked.len() && picked[o] == a,
        decreases n - i,
    {
        let c = rest.remove(0);
        proof {
            assert(c == all[i as int]);
        }
        let ghost old_picked = picked;
        if keep[i] {
            out.push(c);
            proof {
                picked = picked.push(i as int);
            }
        }
        proof {
            assert forall|a: int| 0 <= a < i + 1 && #[trigger] kept(all, a) implies exists|o: int|
                0 <= o < picked.len() && picked[o] == a by {
                if a < i {
                    let o = choose|o: int| 0 <= o < old_picked.len() && old_picked[o] == a;
                    assert(picked[o] == a);
                } else {
                    assert(picked[picked.len() - 1] == a);
                }
            }
        }
        i = i + 1;
    }
    proof {
        assert forall|o: int| 0 <= o < out@.len() implies front_member(all, #[trigger] out@[o]) by {
            let a = picked[o];
            assert(all[a] == out@[o] && kept(all, a));
        }
        assert forall|a: int| 0 <= a < all.len() && #[trigger] kept(all, a) implies exists|o: int|
            0 <= o < out@.len() && out@[o] == all[a] by {
            let o = choose|o: int| 0 <= o < picked.len() && picked[o] == a;
            assert(out@[o] == all[a]);
        }
        assert forall|o: int, p: int| 0 <= o < out@.len() && 0 <= p < out@.len() && o != p implies !covers(
            #[trigger] out@[o],
            #[trigger] out@[p],
        ) by {
            let a = picked[o];
            let b = picked[p];
            assert(a != b) by {
                if o < p {
                    assert(picked[o] < picked[p]);
                } else {
                    assert(picked[p] < picked[o]);
                }
            }
            assert(kept(all, a));
            assert(kept(all, b));
            if covers(all[a], all[b]) {
                assert(!(covers(all[a], all[b]) && (!covers(all[b], all[a]) || a < b)));
                assert(!(covers(all[b], all[a]) && (!covers(all[a], all[b]) || b < a)));
            }
        }
    }
    out
}

/// What holds of every candidate holds of the front, and a candidate arriving by `a`
/// with at most `transfers` transfers leaves one in the front.
proof fn lemma_front_keeps(
    t: &RaptorTimetable,
    all: Seq<Journey>,
    front: Seq<Journey>,
    origin: RaptorStopID,
    destination: RaptorStopID,
    dep: Seconds,
)
    requires
        forall|o: int| 0 <= o < front.len() ==> front_member(all, #[trigger] front[o]),
        forall|i: int|
            0 <= i < all.len() && #[trigger] kept(all, i) ==> exists|o: int| 0 <= o < front.len() && front[o] == all[i],
        forall|c: int|
            0 <= c < all.len() ==> journey_found(t, #[trigger] all[c], origin, destination, dep, MAX_ROUNDS as nat),
    ensures
        forall|i: int|
            0 <= i < front.len() ==> journey_found(t, #[trigger] front[i], origin, destination, dep, MAX_ROUNDS as nat),
        all.len() > 0 ==> front.len() > 0,
        forall|a: int, tr: nat| #[trigger] matched(all, a, tr) ==> matched(front, a, tr),
{
    assert forall|i: int| 0 <= i < front.len() implies journey_found(
        t,
        #[trigger] front[i],
        origin,
        destination,
        dep,
        MAX_ROUNDS as nat,
    ) by {
        assert(front_member(all, front[i]));
        let a = choose|a: int| 0 <= a < all.len() && all[a] == front[i] && kept(all, a);
        assert(journey_found(t, all[a], origin, destination, dep, MAX_ROUNDS as nat));
    }
    if all.len() > 0 {
        let m = lemma_covered_by_kept(all, 0, 0);
        let o = choose|o: int| 0 <= o < front.len() && front[o] == all[m];
    }
    assert forall|a: int, tr: nat| #[trigger] matched(all, a, tr) implies matched(front, a, tr) by {
        let c = choose|c: int| 0 <= c < all.len() && legs_arrival((#[trigger] all[c]).legs@) <= a && transfers_of(all[c]) <= tr;
        let m = lemma_covered_by_kept(all, c, c);
        let o = choose|o: int| 0 <= o < front.len() && front[o] == all[m];
        assert(legs_arrival(front[o].legs@) <= a && transfers_of(front[o]) <= tr);
    }
}

/// The front of the candidates, or `EmptyJourney` when there is none.
fn front_of(
    cands: Vec<Journey>,
    Ghost(t): Ghost<RaptorTimetable>,
    Ghost(origin_id): Ghost<RaptorStopID>,
    Ghost(destination_id): Ghost<RaptorStopID>,
    Ghost(departure_time): Ghost<Seconds>,
) -> (res: Result<Vec<Journey>, RaptorError>)
    requires
        forall|c: int|
            0 <= c < cands@.len() ==> journey_found(
                &t,
                #[trigger] cands@[c],
                origin_id,
                destination_id,
                departure_time,
                MAX_ROUNDS as nat,
            ),
    ensures
        res matches Ok(v) ==> v@.len() >= 1 && non_dominated(v@) && forall|i: int|
            0 <= i < v@.len() ==> journey_found(&t, #[trigger] v@[i], origin_id, destination_id, departure_time, MAX_ROUNDS as nat),
        res matches Err(e) ==> e == RaptorError::EmptyJourney,
        forall|a: int, tr: nat| #[trigger] matched(cands@, a, tr) ==> (res matches Ok(v) && matched(v@, a, tr)),
{
    let ghost all = cands@;
    let front = pareto_front(cands);
    proof {
        lemma_front_keeps(&t, all, front@, origin_id, destination_id, departure_time);
    }
    if front.len() == 0 {
        Err(RaptorError::EmptyJourney)
    } else {
        Ok(front)
    }
}

/// Multi-criteria routing on one feed: journeys compared by arrival and by transfers.
pub struct Raptor {
    pub feed: String,
    raptor_feed: RaptorGtfsFeed,
    search: RaptorHandler,
    id_map: IdMap,
    state: Option<RaptorState>,
}

impl Raptor {
    /// Puts a feed (read from the directory `feed`), its timetable and its id map
    /// together; no search state exists until a query.
    pub fn from_parts(feed: String, raptor_feed: RaptorGtfsFeed, timetable: RaptorTimetable, id_map: IdMap) -> (res: Self)
        ensures
            res.inv(),
            res.stop_ids() == text_keyed(id_map.stops),
            res.timetable_spec() == timetable,
    {
        Raptor { feed, raptor_feed, search: RaptorHandler::new(timetable), id_map, state: None }
    }

    /// The search's tables fit its timetable.
    pub closed spec fn inv(&self) -> bool {
        self.search.inv()
    }

    /// The map from GTFS stop ids to dense stop ids.
    pub closed spec fn stop_ids(&self) -> Map<Seq<char>, usize> {
        text_keyed(self.id_map.stops)
    }

    /// The timetable searched.
    pub closed spec fn timetable_spec(&self) -> RaptorTimetable {
        self.search.table()
    }

    /// The front of what the earliest-arrival search finds, with its journey, for each
    /// number of rides from one to `MAX_ROUNDS`, between two distinct stops of a
    /// timetable it can run on.
    #[verifier::rlimit(60)]
    #[verifier::spinoff_prover]
    fn search_front(&mut self, origin_id: RaptorStopID, destination_id: RaptorStopID, departure_time: Seconds) -> (res:
        Result<Vec<Journey>, RaptorError>)
        requires
            old(self).inv(),
            origin_id != destination_id,
            old(self).timetable_spec().wf(),
            old(self).timetable_spec().times_fit(departure_time),
            origin_id.id < old(self).timetable_spec().stops@.len(),
            destination_id.id < old(self).timetable_spec().stops@.len(),
        ensures
            final(self).inv(),
            final(self).timetable_spec() == old(self).timetable_spec(),
            final(self).stop_ids() == old(self).stop_ids(),
            res matches Ok(v) ==> v@.len() >= 1 && non_dominated(v@) && forall|i: int|
                0 <= i < v@.len() ==> journey_found(
                    &old(self).timetable_spec(),
                    #[trigger] v@[i],
                    origin_id,
                    destination_id,
                    departure_time,
                    MAX_ROUNDS as nat,
                ),
            res matches Err(e) ==> e == RaptorError::EmptyJourney,
            searchable(&old(self).timetable_spec()) && none_before(
                &old(self).timetable_spec(),
                origin_id,
                departure_time,
                destination_id,
                MAX_ROUNDS as nat,
            ) ==> forall|legs: Seq<Leg>, a: Seconds|
                #[trigger] feasible_journey(&old(self).timetable_spec(), origin_id, departure_time, legs, destination_id, a)
                    && count_rides(legs) <= MAX_ROUNDS && a < INFINITY ==> (res matches Ok(v) && matched(
                    v@,
                    a as int,
                    rides_transfers(legs),
                )),
    {
        let ghost t = self.search.table();
        let mut cands: Vec<Journey> = Vec::new();
        let mut k: usize = 1;
        while k <= MAX_ROUNDS
            invariant
                self.inv(),
                t == self.search.table(),
                self.stop_ids() == old(self).stop_ids(),
                t == old(self).timetable_spec(),
                t.wf(),
                t.times_fit(departure_time),
                origin_id != destination_id,
                origin_id.id < t.stops@.len(),
                destination_id.id < t.stops@.len(),
                1 <= k <= MAX_ROUNDS + 1,
                forall|c: int|
                    0 <= c < cands@.len() ==> journey_found(
                        &t,
                        #[trigger] cands@[c],
                        origin_id,
                        destination_id,
                        departure_time,
                        MAX_ROUNDS as nat,
                    ),
                searchable(&t) && none_before(&t, origin_id, departure_time, destination_id, MAX_ROUNDS as nat) ==> forall|
                    legs: Seq<Leg>,
                    a: Seconds,
                |
                    #[trigger] feasible_journey(&t, origin_id, departure_time, legs, destination_id, a) && rounds_needed(legs)
                        < k && a < INFINITY ==> matched(cands@, a as int, rides_transfers(legs)),
            decreases MAX_ROUNDS + 1 - k,
        {
            let ghost before = cands@;
            let answer = self.search.query(origin_id, destination_id, departure_time, Some(k - 1));
            let ghost ans = answer;
            if let Ok(found) = answer {
                if let Some(j) = found.diary {
                    cands.push(j);
                }
            }
            proof {
                assert(query_answer(&t, origin_id, destination_id, departure_time, Some((k - 1) as usize), ans));
                if let Ok(q) = ans {
                    let j = q.diary->0;
                    assert(cands@ == before.push(j));
                    assert(j.legs@.len() >= 1) by {
                        if j.legs@.len() == 0 {
                            assert(feasible_journey(&t, origin_id, departure_time, j.legs@, destination_id, q.earliest_arrival_time));
                        }
                    }
                    assert(legs_arrival(j.legs@) == q.earliest_arrival_time);
                    assert forall|c: int| 0 <= c < cands@.len() implies journey_found(
                        &t,
                        #[trigger] cands@[c],
                        origin_id,
                        destination_id,
                        departure_time,
                        MAX_ROUNDS as nat,
                    ) by {
                        if c < before.len() {
                            assert(cands@[c] == before[c]);
                        }
                    }
                }
                if searchable(&t) && none_before(&t, origin_id, departure_time, destination_id, MAX_ROUNDS as nat) {
                    assert forall|a: Seconds|
                        #[trigger] attainable(
                            &t,
                            origin_id,
                            departure_time,
                            destination_id,
                            a,
                            max_boardings(Some((k - 1) as usize)),
                        ) implies a >= departure_time by {
                        let legs = choose|legs: Seq<Leg>|
                            #[trigger] feasible_journey(&t, origin_id, departure_time, legs, destination_id, a) && count_rides(
                                legs,
                            ) <= max_boardings(Some((k - 1) as usize));
                        assert(feasible_journey(&t, origin_id, departure_time, legs, destination_id, a));
                        assert(attainable(&t, origin_id, departure_time, destination_id, a, MAX_ROUNDS as nat));
                    }
                    assert forall|legs: Seq<Leg>, a: Seconds|
                        #[trigger] feasible_journey(&t, origin_id, departure_time, legs, destination_id, a) && rounds_needed(
                            legs,
                        ) < k + 1 && a < INFINITY implies matched(cands@, a as int, rides_transfers(legs)) by {
                        if rounds_needed(legs) < k {
                            let c = choose|c: int|
                                0 <= c < before.len() && legs_arrival((#[trigger] before[c]).legs@) <= a
                                    && transfers_of(before[c]) <= rides_transfers(legs);
                            assert(cands@[c] == before[c]);
                        } else {
                            assert(count_rides(legs) <= max_boardings(Some((k - 1) as usize)));
                            let q = ans->Ok_0;
                            let j = q.diary->0;
                            assert(cands@[before.len() as int] == j);
                            assert(transfers_of(j) <= rides_transfers(legs));
                        }
                    }
                }
            }
            k = k + 1;
        }
        proof {
            if searchable(&t) && none_before(&t, origin_id, departure_time, destination_id, MAX_ROUNDS as nat) {
                assert forall|legs: Seq<Leg>, a: Seconds|
                    #[trigger] feasible_journey(&t, origin_id, departure_time, legs, destination_id, a) && count_rides(legs)
                        <= MAX_ROUNDS && a < INFINITY implies matched(cands@, a as int, rides_transfers(legs)) by {
                    assert(rounds_needed(legs) < k);
                }
            }
        }
        front_of(cands, Ghost(t), Ghost(origin_id), Ghost(destination_id), Ghost(departure_time))
    }

    /// All non-dominated journeys between two stops given by GTFS id, leaving at
    /// `departure_time`, by arrival time and number of transfers. Both stops are looked
    /// up first, and an unknown one is an error naming it. From a stop to itself the
    /// answer is the journey with no legs. Otherwise the earliest-arrival search runs once
    /// for each number of rides from one to `MAX_ROUNDS`, and the answer is the front of
    /// the journeys it finds: each one that no other beats on a criterion while matching
    /// it on the other (of ties, the one found with fewer rides). Where that search finds
    /// earliest arrivals (`searchable`) and no journey with at most `MAX_ROUNDS` rides
    /// reaches the destination before the departure, every journey of the timetable with
    /// at most `MAX_ROUNDS` rides is matched by one of the front arriving no later with no
    /// more transfers. A timetable the search cannot run on is an `InvalidGtfs` error, and
    /// nothing found at all is `EmptyJourney`.
    pub fn query(&mut self, departure_time: Seconds, origin: &str, destination: &str) -> (res: Result<
        Vec<Journey>,
        RaptorError,
    >)
        requires
            old(self).inv(),
        ensures
            final(self).inv(),
            final(self).timetable_spec() == old(self).timetable_spec(),
            final(self).stop_ids() == old(self).stop_ids(),
            !old(self).stop_ids().contains_key(origin@) ==> (res matches Err(RaptorError::InvalidGtfs(m))
                && m@ == "Could not find GTFS id: "@ + origin@),
            old(self).stop_ids().contains_key(origin@) && !old(self).stop_ids().contains_key(destination@) ==> (
            res matches Err(RaptorError::InvalidGtfs(m)) && m@ == "Could not find GTFS id: "@
                + destination@),
            old(self).stop_ids().contains_key(origin@) && old(self).stop_ids().contains_key(destination@) ==> ({
                let o = RaptorStopID { id: old(self).stop_ids()[origin@] };
                let d = RaptorStopID { id: old(self).stop_ids()[destination@] };
                let tt = old(self).timetable_spec();
                if o == d {
                    res matches Ok(v) && v@.len() == 1 && v@[0].origin == o && v@[0].destination == o
                        && v@[0].departure_time == departure_time && v@[0].legs@.len() == 0
                } else if !(tt.wf() && tt.times_fit(departure_time) && o.id < tt.stops@.len() && d.id
                    < tt.stops@.len()) {
                    res matches Err(RaptorError::InvalidGtfs(_))
                } else {
                    &&& res matches Ok(v) ==> v@.len() >= 1 && non_dominated(v@) && forall|i: int|
                        0 <= i < v@.len() ==> journey_found(&tt, #[trigger] v@[i], o, d, departure_time, MAX_ROUNDS as nat)
                    &&& res matches Err(e) ==> e == RaptorError::EmptyJourney
                    &&& searchable(&tt) && none_before(&tt, o, departure_time, d, MAX_ROUNDS as nat) ==> forall|
                        legs: Seq<Leg>,
                        a: Seconds,
                    |
                        #[trigger] feasible_journey(&tt, o, departure_time, legs, d, a) && count_rides(legs) <= MAX_ROUNDS
                            && a < INFINITY ==> (res matches Ok(v) && matched(v@, a as int, rides_transfers(legs)))
                }
            }),
    {
        let origin_id = match self.id_map.gtfs_id_to_raptor_id(origin) {
            Ok(id) => id,
            Err(e) => return Err(e),
        };
        let destination_id = match self.id_map.gtfs_id_to_raptor_id(destination) {
            Ok(id) => id,
            Err(e) => return Err(e),
        };
        if origin_id == destination_id {
            let mut v: Vec<Journey> = Vec::new();
            v.push(Journey::new(origin_id, destination_id, departure_time, Vec::new()));
            return Ok(v);
        }
        let tt = self.search.timetable();
        if !tt.check_wf() {
            return Err(RaptorError::InvalidGtfs(String::from_str("The timetable is not well formed")));
        }
        if !tt.check_times_fit(departure_time) {
            return Err(RaptorError::InvalidGtfs(String::from_str("Times overflow when walks are added to them")));
        }
        if origin_id.id >= tt.stops.len() || destination_id.id >= tt.stops.len() {
            return Err(RaptorError::InvalidGtfs(String::from_str("A stop id is outside the timetable")));
        }
        self.search_front(origin_id, destination_id, departure_time)
    }
}

} // verus!
