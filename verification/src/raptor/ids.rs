use std::collections::HashMap;

use vstd::prelude::*;

use crate::errors::RaptorError;
use crate::raptor::routes::dense;
use crate::raptor::types::RaptorStopID;
use crate::text::{decimal, push_decimal};

verus! {

broadcast use vstd::std_specs::hash::group_hash_axioms;

/// A map from texts (GTFS ids) to dense ids.
pub type TextIds = HashMap<String, usize>;

/// Names the contents of a map from texts to numbers: the number stored for each text.
pub uninterp spec fn text_keyed(m: TextIds) -> Map<Seq<char>, usize>;

/// The map that holds no text.
pub open spec fn no_texts() -> Map<Seq<char>, usize> {
    Map::empty()
}

/// `HashMap::new`: the map holds nothing.
#[verifier::external_body]
pub(crate) fn text_map_new() -> (res: TextIds)
    ensures
        text_keyed(res) == no_texts(),
{
    HashMap::new()
}

/// `HashMap::insert`: afterwards the key's text maps to `value`, and every other text
/// keeps what it had (`String` keys are equal exactly when their texts are).
#[verifier::external_body]
pub(crate) fn text_map_insert(m: &mut TextIds, key: String, value: usize)
    ensures
        text_keyed(*final(m)) == text_keyed(*old(m)).insert(key@, value),
{
    m.insert(key, value);
}

/// `HashMap::get` with a text key, copying the number found.
#[verifier::external_body]
pub(crate) fn text_map_get(m: &TextIds, key: &str) -> (res: Option<usize>)
    ensures
        match res {
            Some(v) => text_keyed(*m).contains_key(key@) && text_keyed(*m)[key@] == v,
            None => !text_keyed(*m).contains_key(key@),
        },
{
    m.get(key).copied()
}

/// `HashMap::len`: the number of texts the map holds.
#[verifier::external_body]
pub(crate) fn text_map_len(m: &TextIds) -> (res: usize)
    ensures
        res == text_keyed(*m).dom().len(),
{
    m.len()
}

/// `HashMap::iter`, copied out: every entry once, in no stated order.
#[verifier::external_body]
pub(crate) fn text_map_entries(m: &TextIds) -> (res: Vec<(String, usize)>)
    ensures
        forall|i: int|
            0 <= i < res@.len() ==> text_keyed(*m).contains_key((#[trigger] res@[i]).0@)
                && text_keyed(*m)[res@[i].0@] == res@[i].1,
        forall|k: Seq<char>|
            #[trigger] text_keyed(*m).contains_key(k) ==> exists|i: int|
                0 <= i < res@.len() && (#[trigger] res@[i]).0@ == k,
        forall|i: int, j: int|
            0 <= i < j < res@.len() ==> (#[trigger] res@[i]).0@ != (#[trigger] res@[j]).0@,
{
    m.iter().map(|(k, v)| (k.clone(), *v)).collect()
}

/// Whether every dense id the map holds is below the number of texts it holds, which
/// is what building a timetable from it asks.
pub fn ids_dense(m: &TextIds) -> (res: bool)
    ensures
        res == dense(text_keyed(*m)),
{
    let n = text_map_len(m);
    let entries = text_map_entries(m);
    let mut i: usize = 0;
    while i < entries.len()
        invariant
            i <= entries@.len(),
            n == text_keyed(*m).dom().len(),
            forall|j: int|
                0 <= j < entries@.len() ==> text_keyed(*m).contains_key((#[trigger] entries@[j]).0@)
                    && text_keyed(*m)[entries@[j].0@] == entries@[j].1,
            forall|j: int| 0 <= j < i ==> (#[trigger] entries@[j]).1 < n,
        decreases entries@.len() - i,
    {
        if entries[i].1 >= n {
            proof {
                let k = entries@[i as int].0@;
                assert(text_keyed(*m).contains_key(k));
            }
            return false;
        }
        i = i + 1;
    }
    proof {
        assert forall|k: Seq<char>| #[trigger] text_keyed(*m).contains_key(k) implies text_keyed(*m)[k]
            < text_keyed(*m).dom().len() by {
            let j = choose|j: int| 0 <= j < entries@.len() && (#[trigger] entries@[j]).0@ == k;
            assert(entries@[j].1 < n);
        }
    }
    true
}

/// The map a column of ids gives: each text present in the column maps to the last row
/// that holds it.
pub open spec fn last_rows(col: Seq<Option<String>>) -> Map<Seq<char>, usize>
    decreases col.len(),
{
    if col.len() == 0 {
        Map::empty()
    } else {
        let m = last_rows(col.drop_last());
        match col.last() {
            Some(s) => m.insert(s@, (col.len() - 1) as usize),
            None => m,
        }
    }
}

/// A map from texts to numbers that no two texts share.
pub open spec fn injective(m: Map<Seq<char>, usize>) -> bool {
    forall|a: Seq<char>, b: Seq<char>|
        m.contains_key(a) && m.contains_key(b) && a != b ==> #[trigger] m[a] != #[trigger] m[b]
}

/// The inverse of a map from texts to numbers.
pub open spec fn inverse(m: Map<Seq<char>, usize>) -> Map<usize, Seq<char>> {
    Map::new(
        |v: usize| exists|k: Seq<char>| m.contains_key(k) && m[k] == v,
        |v: usize| choose|k: Seq<char>| m.contains_key(k) && m[k] == v,
    )
}

/// Texts of numbers, as the reverse maps hold them.
pub open spec fn texts(m: Map<usize, String>) -> Map<usize, Seq<char>> {
    Map::new(|v: usize| m.contains_key(v), |v: usize| m[v]@)
}

pub proof fn lemma_last_rows_below(col: Seq<Option<String>>)
    requires
        col.len() <= usize::MAX,
    ensures
        forall|k: Seq<char>| #[trigger] last_rows(col).contains_key(k) ==> last_rows(col)[k] < col.len(),
        last_rows(col).dom().finite(),
    decreases col.len(),
{
    if col.len() > 0 {
        lemma_last_rows_below(col.drop_last());
    }
}

/// Rows are distinct, so no two ids of a column share a row.
pub proof fn lemma_last_rows_injective(col: Seq<Option<String>>)
    requires
        col.len() <= usize::MAX,
    ensures
        injective(last_rows(col)),
    decreases col.len(),
{
    if col.len() > 0 {
        lemma_last_rows_injective(col.drop_last());
        lemma_last_rows_below(col.drop_last());
        let m = last_rows(col.drop_last());
        let n = last_rows(col);
        assert forall|a: Seq<char>, b: Seq<char>|
            n.contains_key(a) && n.contains_key(b) && a != b implies #[trigger] n[a] != #[trigger] n[b] by {
            match col.last() {
                Some(s) => {
                    assert(n == m.insert(s@, (col.len() - 1) as usize));
                    if a == s@ {
                        assert(m.contains_key(b));
                        assert(m[b] < col.len() - 1);
                        assert(n[b] == m[b]);
                        assert(n[a] == col.len() - 1);
                        assert(n[a] != n[b]);
                    } else if b == s@ {
                        assert(m.contains_key(a));
                        assert(m[a] < col.len() - 1);
                        assert(n[a] == m[a]);
                        assert(n[b] == col.len() - 1);
                        assert(n[a] != n[b]);
                    } else {
                        assert(m.contains_key(a) && m.contains_key(b));
                        assert(n[a] == m[a] && n[b] == m[b]);
                        assert(n[a] != n[b]);
                    }
                },
                None => {
                    assert(n == m);
                    assert(m.contains_key(a) && m.contains_key(b));
                },
            }
        }
    }
}

/// Builds the map of a column of ids: each id maps to the last row that holds it.
pub(crate) fn index_rows(col: &Vec<Option<String>>) -> (res: TextIds)
    ensures
        text_keyed(res) == last_rows(col@),
{
    let mut m = text_map_new();
    let mut idx: usize = 0;
    while idx < col.len()
        invariant
            idx <= col@.len(),
            text_keyed(m) == last_rows(col@.take(idx as int)),
        decreases col@.len() - idx,
    {
        proof {
            assert(col@.take(idx + 1).drop_last() =~= col@.take(idx as int));
            assert(col@.take(idx + 1).last() == col@[idx as int]);
        }
        match &col[idx] {
            Some(id) => {
                text_map_insert(&mut m, id.clone(), idx);
            },
            None => {},
        }
        idx = idx + 1;
    }
    proof {
        assert(col@.take(idx as int) =~= col@);
    }
    m
}

/// Maps from GTFS ids to the dense ids the routing uses.
pub struct IdMap {
    pub routes: HashMap<String, usize>,
    pub trips: HashMap<String, usize>,
    pub stops: HashMap<String, usize>,
}

/// Maps from dense ids back to GTFS ids.
pub struct ReverseIdMap {
    pub routes: HashMap<usize, String>,
    pub trips: HashMap<usize, String>,
    pub stops: HashMap<usize, String>,
}

impl IdMap {
    /// A map of dense ids from the three id columns of a feed.
    pub fn from_columns(
        route_ids: &Vec<Option<String>>,
        trip_ids: &Vec<Option<String>>,
        stop_ids: &Vec<Option<String>>,
    ) -> (res: Self)
        ensures
            text_keyed(res.routes) == last_rows(route_ids@),
            text_keyed(res.trips) == last_rows(trip_ids@),
            text_keyed(res.stops) == last_rows(stop_ids@),
    {
        IdMap { routes: index_rows(route_ids), trips: index_rows(trip_ids), stops: index_rows(stop_ids) }
    }

    /// The dense stop id of a GTFS stop id, or an error naming it.
    pub fn gtfs_id_to_raptor_id(&self, gtfs_id: &str) -> (res: Result<RaptorStopID, RaptorError>)
        ensures
            text_keyed(self.stops).contains_key(gtfs_id@) ==> res == Ok::<RaptorStopID, RaptorError>(
                RaptorStopID { id: text_keyed(self.stops)[gtfs_id@] },
            ),
            !text_keyed(self.stops).contains_key(gtfs_id@) ==> (res matches Err(RaptorError::InvalidGtfs(msg))
                && msg@ == "Could not find GTFS id: "@ + gtfs_id@),
    {
        match text_map_get(&self.stops, gtfs_id) {
            Some(raptor_id) => Ok(RaptorStopID::new(raptor_id)),
            None => {
                let mut msg = String::from_str("Could not find GTFS id: ");
                msg.append(gtfs_id);
                Err(RaptorError::InvalidGtfs(msg))
            },
        }
    }

}

/// A map that can be turned around: GTFS ids are unique, so an id map can be read from
/// dense ids back to GTFS ids and the other way.
pub trait Invertible {
    type Inverted;

    fn invert(&self) -> Self::Inverted;
}

impl Invertible for IdMap {
    type Inverted = ReverseIdMap;

    /// The reverse map. GTFS ids are unique, so when no two ids share a dense id the
    /// reverse map is the inverse of each map.
    fn invert(&self) -> (res: ReverseIdMap)
        ensures
            injective(text_keyed(self.routes)) ==> texts(res.routes@) == inverse(text_keyed(self.routes)),
            injective(text_keyed(self.trips)) ==> texts(res.trips@) == inverse(text_keyed(self.trips)),
            injective(text_keyed(self.stops)) ==> texts(res.stops@) == inverse(text_keyed(self.stops)),
    {
        ReverseIdMap {
            stops: invert_text_map(&self.stops),
            routes: invert_text_map(&self.routes),
            trips: invert_text_map(&self.trips),
        }
    }
}

fn invert_text_map(m: &TextIds) -> (res: HashMap<usize, String>)
    ensures
        injective(text_keyed(*m)) ==> texts(res@) == inverse(text_keyed(*m)),
{
    let entries = text_map_entries(m);
    let mut rev: HashMap<usize, String> = HashMap::new();
    let mut i: usize = 0;
    while i < entries.len()
        invariant
            i <= entries@.len(),
            forall|q: int|
                0 <= q < entries@.len() ==> text_keyed(*m).contains_key((#[trigger] entries@[q]).0@)
                    && text_keyed(*m)[entries@[q].0@] == entries@[q].1,
            injective(text_keyed(*m)) ==> forall|v: usize|
                #[trigger] rev@.contains_key(v) <==> exists|q: int| 0 <= q < i && (#[trigger] entries@[q]).1 == v,
            injective(text_keyed(*m)) ==> forall|q: int|
                0 <= q < i ==> rev@.contains_key((#[trigger] entries@[q]).1) && rev@[entries@[q].1]@ == entries@[q].0@,
        decreases entries@.len() - i,
    {
        let (key, value) = &entries[i];
        let ghost old_rev = rev@;
        rev.insert(*value, key.clone());
        proof {
            if injective(text_keyed(*m)) {
                assert forall|q: int| 0 <= q < i + 1 implies rev@.contains_key((#[trigger] entries@[q]).1)
                    && rev@[entries@[q].1]@ == entries@[q].0@ by {
                    if q < i && entries@[q].1 == *value {
                        assert(text_keyed(*m)[entries@[q].0@] == text_keyed(*m)[entries@[i as int].0@]);
                        assert(entries@[q].0@ == entries@[i as int].0@);
                    }
                }
                assert forall|v: usize| #[trigger] rev@.contains_key(v) <==> exists|q: int|
                    0 <= q < i + 1 && (#[trigger] entries@[q]).1 == v by {
                    if rev@.contains_key(v) && v != *value {
                        assert(old_rev.contains_key(v));
                    }
                    if exists|q: int| 0 <= q < i + 1 && (#[trigger] entries@[q]).1 == v {
                        let q = choose|q: int| 0 <= q < i + 1 && (#[trigger] entries@[q]).1 == v;
                        if q < i {
                            assert(old_rev.contains_key(v));
                        }
                    }
                }
            }
        }
        i = i + 1;
    }
    proof {
        if injective(text_keyed(*m)) {
            let inv = inverse(text_keyed(*m));
            assert forall|v: usize| #[trigger] texts(rev@).contains_key(v) <==> inv.contains_key(v) by {
                if texts(rev@).contains_key(v) {
                    let q = choose|q: int| 0 <= q < i && (#[trigger] entries@[q]).1 == v;
                    assert(text_keyed(*m).contains_key(entries@[q].0@));
                }
                if inv.contains_key(v) {
                    let k = choose|k: Seq<char>| text_keyed(*m).contains_key(k) && text_keyed(*m)[k] == v;
                    let q = choose|q: int| 0 <= q < entries@.len() && (#[trigger] entries@[q]).0@ == k;
                    assert(entries@[q].1 == v);
                }
            }
            assert forall|v: usize| #[trigger] texts(rev@).contains_key(v) implies texts(rev@)[v] == inv[v] by {
                let q = choose|q: int| 0 <= q < i && (#[trigger] entries@[q]).1 == v;
                let k = choose|k: Seq<char>| text_keyed(*m).contains_key(k) && text_keyed(*m)[k] == v;
                assert(text_keyed(*m)[entries@[q].0@] == v);
                if k != entries@[q].0@ {
                    assert(false);
                }
            }
            assert(texts(rev@) =~= inv);
        }
    }
    rev
}
/// A map from numbers to texts that no two numbers share.
pub open spec fn injective_texts(m: Map<usize, Seq<char>>) -> bool {
    forall|a: usize, b: usize|
        m.contains_key(a) && m.contains_key(b) && a != b ==> #[trigger] m[a] != #[trigger] m[b]
}

/// The inverse of a map from numbers to texts.
pub open spec fn inverse_texts(m: Map<usize, Seq<char>>) -> Map<Seq<char>, usize> {
    Map::new(
        |k: Seq<char>| exists|v: usize| m.contains_key(v) && m[v] == k,
        |k: Seq<char>| choose|v: usize| m.contains_key(v) && m[v] == k,
    )
}

fn invert_number_map(m: &HashMap<usize, String>) -> (res: TextIds)
    ensures
        injective_texts(texts(m@)) ==> text_keyed(res) == inverse_texts(texts(m@)),
{
    let ghost tm = texts(m@);
    let ghost mut seen: Seq<usize> = Seq::empty();
    let mut out = text_map_new();
    for entry in it: m.iter()
        invariant
            tm == texts(m@),
            seen.len() == it.index(),
            forall|q: int| 0 <= q < it.index() ==> seen[q] == *(#[trigger] it.seq()[q]).0,
            forall|q: int|
                0 <= q < it.seq().len() ==> m@.contains_key(*(#[trigger] it.seq()[q]).0)
                    && m@[*it.seq()[q].0] == *it.seq()[q].1,
            forall|v: usize| #[trigger] m@.contains_key(v) ==> it.seq().contains((&v, &m@[v])),
            forall|q: int| 0 <= q < seen.len() ==> #[trigger] m@.contains_key(seen[q]),
            forall|v: usize|
                #[trigger] m@.contains_key(v) ==> (exists|q: int| 0 <= q < seen.len() && seen[q] == v)
                    || (exists|q: int| it.index() <= q < it.seq().len() && *(#[trigger] it.seq()[q]).0 == v),
            injective_texts(tm) ==> forall|k: Seq<char>|
                #[trigger] text_keyed(out).contains_key(k) <==> exists|q: int|
                    0 <= q < seen.len() && tm[#[trigger] seen[q]] == k,
            injective_texts(tm) ==> forall|q: int|
                0 <= q < seen.len() ==> text_keyed(out).contains_key(tm[#[trigger] seen[q]])
                    && text_keyed(out)[tm[seen[q]]] == seen[q],
    {
        let (key, value) = entry;
        let ghost old_out = text_keyed(out);
        let ghost old_seen = seen;
        proof {
            seen = seen.push(*key);
            let i = it.index() as int;
            assert(*it.seq()[i].0 == *key);
            assert forall|v: usize| #[trigger] m@.contains_key(v) implies (exists|q: int| 0 <= q < seen.len() && seen[q] == v)
                || (exists|q: int| i + 1 <= q < it.seq().len() && *(#[trigger] it.seq()[q]).0 == v) by {
                if exists|q: int| 0 <= q < old_seen.len() && old_seen[q] == v {
                    let q = choose|q: int| 0 <= q < old_seen.len() && old_seen[q] == v;
                    assert(seen[q] == v);
                } else if v == *key {
                    assert(seen[i] == v);
                } else {
                    let q = choose|q: int| i <= q < it.seq().len() && *(#[trigger] it.seq()[q]).0 == v;
                    assert(q != i);
                }
            }
        }
        text_map_insert(&mut out, value.clone(), *key);
        proof {
            let i = it.index() as int;
            assert(tm[*key] == value@);
            if injective_texts(tm) {
                assert forall|q: int| 0 <= q < seen.len() implies text_keyed(out).contains_key(tm[#[trigger] seen[q]])
                    && text_keyed(out)[tm[seen[q]]] == seen[q] by {
                    if q < i && tm[seen[q]] == value@ {
                        assert(tm.contains_key(seen[q]));
                        assert(tm.contains_key(*key));
                    }
                }
                assert forall|k: Seq<char>| #[trigger] text_keyed(out).contains_key(k) <==> exists|q: int|
                    0 <= q < seen.len() && tm[#[trigger] seen[q]] == k by {
                    if text_keyed(out).contains_key(k) && k != value@ {
                        assert(old_out.contains_key(k));
                        let q = choose|q: int| 0 <= q < old_seen.len() && tm[#[trigger] old_seen[q]] == k;
                        assert(seen[q] == old_seen[q]);
                    }
                    if text_keyed(out).contains_key(k) && k == value@ {
                        assert(tm[seen[i]] == k);
                    }
                    if exists|q: int| 0 <= q < seen.len() && tm[#[trigger] seen[q]] == k {
                        let q = choose|q: int| 0 <= q < seen.len() && tm[#[trigger] seen[q]] == k;
                        if q < i {
                            assert(old_seen[q] == seen[q]);
                            assert(old_out.contains_key(k));
                        }
                    }
                }
            }
        }
    }
    proof {
        if injective_texts(tm) {
            let inv = inverse_texts(tm);
            assert forall|k: Seq<char>| #[trigger] text_keyed(out).contains_key(k) <==> inv.contains_key(k) by {
                if text_keyed(out).contains_key(k) {
                    let q = choose|q: int| 0 <= q < seen.len() && tm[#[trigger] seen[q]] == k;
                    assert(m@.contains_key(seen[q]));
                    assert(tm.contains_key(seen[q]));
                }
                if inv.contains_key(k) {
                    let v = choose|v: usize| tm.contains_key(v) && tm[v] == k;
                    assert(m@.contains_key(v));
                    let q = choose|q: int| 0 <= q < seen.len() && seen[q] == v;
                    assert(tm[seen[q]] == k);
                }
            }
            assert forall|k: Seq<char>| #[trigger] text_keyed(out).contains_key(k) implies text_keyed(out)[k] == inv[k] by {
                let q = choose|q: int| 0 <= q < seen.len() && tm[#[trigger] seen[q]] == k;
                let v = choose|v: usize| tm.contains_key(v) && tm[v] == k;
                assert(m@.contains_key(seen[q]));
                if v != seen[q] {
                    assert(tm.contains_key(seen[q]));
                    assert(false);
                }
            }
            assert(text_keyed(out) =~= inv);
        }
    }
    out
}

impl ReverseIdMap {
    /// The GTFS stop id of a dense stop id, or an error naming the dense id.
    pub fn raptor_id_to_gtfs_id(&self, raptor_id: RaptorStopID) -> (res: Result<String, RaptorError>)
        ensures
            self.stops@.contains_key(raptor_id.id) ==> (res matches Ok(s) && s@ == self.stops@[raptor_id.id]@),
            !self.stops@.contains_key(raptor_id.id) ==> (res matches Err(RaptorError::InvalidGtfs(msg))
                && msg@ == "Could not find Raptor id: "@ + decimal(raptor_id.id as nat)),
    {
        match self.stops.get(&raptor_id.id) {
            Some(gtfs_id) => Ok(gtfs_id.clone()),
            None => {
                let mut msg = String::from_str("Could not find Raptor id: ");
                push_decimal(&mut msg, raptor_id.id);
                Err(RaptorError::InvalidGtfs(msg))
            },
        }
    }

}

impl Invertible for ReverseIdMap {
    type Inverted = IdMap;

    /// The map back to dense ids; it inverts each map whose texts are distinct.
    fn invert(&self) -> (res: IdMap)
        ensures
            injective_texts(texts(self.routes@)) ==> text_keyed(res.routes) == inverse_texts(texts(self.routes@)),
            injective_texts(texts(self.trips@)) ==> text_keyed(res.trips) == inverse_texts(texts(self.trips@)),
            injective_texts(texts(self.stops@)) ==> text_keyed(res.stops) == inverse_texts(texts(self.stops@)),
    {
        IdMap {
            stops: invert_number_map(&self.stops),
            routes: invert_number_map(&self.routes),
            trips: invert_number_map(&self.trips),
        }
    }
}

/// Inverting a map from texts to numbers twice gives the map back, when no two texts
/// share a number: the inverse then shares no text between two numbers either.
pub proof fn lemma_inverse_round_trip(m: Map<Seq<char>, usize>)
    requires
        injective(m),
    ensures
        injective_texts(inverse(m)),
        inverse_texts(inverse(m)) == m,
{
    let inv = inverse(m);
    assert forall|a: usize, b: usize|
        inv.contains_key(a) && inv.contains_key(b) && a != b implies #[trigger] inv[a] != #[trigger] inv[b] by {
        let ka = choose|k: Seq<char>| m.contains_key(k) && m[k] == a;
        let kb = choose|k: Seq<char>| m.contains_key(k) && m[k] == b;
        assert(ka != kb);
    }
    let back = inverse_texts(inv);
    assert forall|k: Seq<char>| #[trigger] back.contains_key(k) <==> m.contains_key(k) by {
        if m.contains_key(k) {
            let v = m[k];
            assert(inv.contains_key(v));
            let k2 = choose|k2: Seq<char>| m.contains_key(k2) && m[k2] == v;
            assert(k2 == k);
            assert(inv[v] == k);
        }
        if back.contains_key(k) {
            let v = choose|v: usize| inv.contains_key(v) && inv[v] == k;
            let k2 = choose|k2: Seq<char>| m.contains_key(k2) && m[k2] == v;
            assert(k2 == k);
        }
    }
    assert forall|k: Seq<char>| #[trigger] back.contains_key(k) implies back[k] == m[k] by {
        let v = choose|v: usize| inv.contains_key(v) && inv[v] == k;
        let k2 = choose|k2: Seq<char>| m.contains_key(k2) && m[k2] == v;
        assert(k2 == k);
    }
    assert(back =~= m);
}

/// Inverting an id map and inverting the result gives back a map that holds, for each
/// kind of id, what the first one held, whenever no two GTFS ids of a kind share a dense
/// id (as in every map built from id columns).
pub proof fn lemma_id_map_round_trip(id_map: IdMap, reversed: ReverseIdMap, back: IdMap)
    requires
        injective(text_keyed(id_map.routes)),
        injective(text_keyed(id_map.trips)),
        injective(text_keyed(id_map.stops)),
        texts(reversed.routes@) == inverse(text_keyed(id_map.routes)),
        texts(reversed.trips@) == inverse(text_keyed(id_map.trips)),
        texts(reversed.stops@) == inverse(text_keyed(id_map.stops)),
        injective_texts(texts(reversed.routes@)) ==> text_keyed(back.routes) == inverse_texts(texts(reversed.routes@)),
        injective_texts(texts(reversed.trips@)) ==> text_keyed(back.trips) == inverse_texts(texts(reversed.trips@)),
        injective_texts(texts(reversed.stops@)) ==> text_keyed(back.stops) == inverse_texts(texts(reversed.stops@)),
    ensures
        text_keyed(back.routes) == text_keyed(id_map.routes),
        text_keyed(back.trips) == text_keyed(id_map.trips),
        text_keyed(back.stops) == text_keyed(id_map.stops),
{
    lemma_inverse_round_trip(text_keyed(id_map.routes));
    lemma_inverse_round_trip(text_keyed(id_map.trips));
    lemma_inverse_round_trip(text_keyed(id_map.stops));
}

} // verus!
