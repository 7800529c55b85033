use vstd::prelude::*;

use crate::datetime::Seconds;
use crate::raptor::types::{Leg, RaptorStopID};

verus! {

/// A table of `n` copies of the time `value`.
pub fn filled_times(n: usize, value: Seconds) -> (res: Vec<Seconds>)
    ensures
        res@ == Seq::new(n as nat, |i: int| value),
{
    let mut v: Vec<Seconds> = Vec::new();
    let mut i: usize = 0;
    while i < n
        invariant
            i <= n,
            v@ == Seq::new(i as nat, |j: int| value),
        decreases n - i,
    {
        v.push(value);
        i = i + 1;
    }
    v
}

/// A table of `n` copies of the flag `value`.
pub fn filled_flags(n: usize, value: bool) -> (res: Vec<bool>)
    ensures
        res@ == Seq::new(n as nat, |i: int| value),
{
    let mut v: Vec<bool> = Vec::new();
    let mut i: usize = 0;
    while i < n
        invariant
            i <= n,
            v@ == Seq::new(i as nat, |j: int| value),
        decreases n - i,
    {
        v.push(value);
        i = i + 1;
    }
    v
}

/// A table of `n` empty slots.
pub fn empty_slots<T>(n: usize) -> (res: Vec<Option<T>>)
    ensures
        res@.len() == n,
        forall|i: int| 0 <= i < n ==> (#[trigger] res@[i]) is None,
{
    let mut v: Vec<Option<T>> = Vec::new();
    let mut i: usize = 0;
    while i < n
        invariant
            i <= n,
            v@.len() == i,
            forall|j: int| 0 <= j < i ==> (#[trigger] v@[j]) is None,
        decreases n - i,
    {
        v.push(None);
        i = i + 1;
    }
    v
}

/// `rows` rows of `n` empty leg slots each.
pub fn empty_leg_rows(rows: usize, n: usize) -> (res: Vec<Vec<Option<Leg>>>)
    ensures
        res@.len() == rows,
        forall|k: int| 0 <= k < rows ==> (#[trigger] res@[k])@.len() == n,
        forall|k: int, s: int| 0 <= k < rows && 0 <= s < n ==> (#[trigger] res@[k]@[s]) is None,
{
    let mut v: Vec<Vec<Option<Leg>>> = Vec::new();
    let mut i: usize = 0;
    while i < rows
        invariant
            i <= rows,
            v@.len() == i,
            forall|k: int| 0 <= k < i ==> (#[trigger] v@[k])@.len() == n,
            forall|k: int, s: int| 0 <= k < i && 0 <= s < n ==> (#[trigger] v@[k]@[s]) is None,
        decreases rows - i,
    {
        v.push(empty_slots(n));
        i = i + 1;
    }
    v
}

/// A copy of a table of times.
pub fn copy_times(v: &Vec<Seconds>) -> (res: Vec<Seconds>)
    ensures
        res@ == v@,
{
    let mut r: Vec<Seconds> = Vec::new();
    let mut i: usize = 0;
    while i < v.len()
        invariant
            i <= v@.len(),
            r@ == v@.take(i as int),
        decreases v@.len() - i,
    {
        r.push(v[i]);
        i = i + 1;
        proof {
            assert(r@ =~= v@.take(i as int));
        }
    }
    proof {
        assert(v@.take(i as int) =~= v@);
    }
    r
}

/// A copy of a table of flags.
pub fn copy_flags(v: &Vec<bool>) -> (res: Vec<bool>)
    ensures
        res@ == v@,
{
    let mut r: Vec<bool> = Vec::new();
    let mut i: usize = 0;
    while i < v.len()
        invariant
            i <= v@.len(),
            r@ == v@.take(i as int),
        decreases v@.len() - i,
    {
        r.push(v[i]);
        i = i + 1;
        proof {
            assert(r@ =~= v@.take(i as int));
        }
    }
    proof {
        assert(v@.take(i as int) =~= v@);
    }
    r
}

/// A copy of a list of stops.
pub fn copy_stops(v: &Vec<RaptorStopID>) -> (res: Vec<RaptorStopID>)
    ensures
        res@ == v@,
{
    let mut r: Vec<RaptorStopID> = Vec::new();
    let mut i: usize = 0;
    while i < v.len()
        invariant
            i <= v@.len(),
            r@ == v@.take(i as int),
        decreases v@.len() - i,
    {
        r.push(v[i]);
        i = i + 1;
        proof {
            assert(r@ =~= v@.take(i as int));
        }
    }
    proof {
        assert(v@.take(i as int) =~= v@);
    }
    r
}

/// The legs in reverse order.
pub fn reversed_legs(v: &Vec<Leg>) -> (res: Vec<Leg>)
    ensures
        res@ == v@.reverse(),
{
    let mut r: Vec<Leg> = Vec::new();
    let mut i: usize = v.len();
    while i > 0
        invariant
            i <= v@.len(),
            r@.len() == v@.len() - i,
            forall|j: int| 0 <= j < r@.len() ==> #[trigger] r@[j] == v@[v@.len() - 1 - j],
        decreases i,
    {
        i = i - 1;
        r.push(v[i]);
    }
    proof {
        assert(r@ =~= v@.reverse());
    }
    r
}

/// The legs of each row, as sequences.
pub open spec fn rows_view(v: Seq<Vec<Leg>>) -> Seq<Seq<Leg>> {
    Seq::new(v.len(), |i: int| v[i]@)
}

/// A copy of a list of legs.
pub fn copy_legs(v: &Vec<Leg>) -> (res: Vec<Leg>)
    ensures
        res@ == v@,
{
    let mut r: Vec<Leg> = Vec::new();
    let mut i: usize = 0;
    while i < v.len()
        invariant
            i <= v@.len(),
            r@ == v@.take(i as int),
        decreases v@.len() - i,
    {
        proof {
            assert(v@.take(i + 1) =~= v@.take(i as int).push(v@[i as int]));
        }
        r.push(v[i]);
        i = i + 1;
    }
    proof {
        assert(v@.take(i as int) =~= v@);
    }
    r
}

/// `n` empty lists of legs.
pub fn empty_rows(n: usize) -> (res: Vec<Vec<Leg>>)
    ensures
        res@.len() == n,
        rows_view(res@) == Seq::new(n as nat, |x: int| Seq::<Leg>::empty()),
{
    let mut r: Vec<Vec<Leg>> = Vec::new();
    let mut i: usize = 0;
    while i < n
        invariant
            i <= n,
            r@.len() == i,
            forall|j: int| 0 <= j < i ==> (#[trigger] r@[j])@ == Seq::<Leg>::empty(),
        decreases n - i,
    {
        r.push(Vec::new());
        i = i + 1;
    }
    proof {
        assert(rows_view(r@) =~= Seq::new(n as nat, |x: int| Seq::<Leg>::empty()));
    }
    r
}

/// A copy of lists of legs.
pub fn copy_rows(v: &Vec<Vec<Leg>>) -> (res: Vec<Vec<Leg>>)
    ensures
        res@.len() == v@.len(),
        rows_view(res@) == rows_view(v@),
{
    let mut r: Vec<Vec<Leg>> = Vec::new();
    let mut i: usize = 0;
    while i < v.len()
        invariant
            i <= v@.len(),
            r@.len() == i,
            forall|j: int| 0 <= j < i ==> (#[trigger] r@[j])@ == v@[j]@,
        decreases v@.len() - i,
    {
        r.push(copy_legs(&v[i]));
        i = i + 1;
    }
    proof {
        assert(rows_view(r@) =~= rows_view(v@));
    }
    r
}

/// Setting one row changes only that row's legs.
pub proof fn lemma_rows_set(v: Seq<Vec<Leg>>, x: int, row: Vec<Leg>)
    requires
        0 <= x < v.len(),
    ensures
        rows_view(v.update(x, row)) == rows_view(v).update(x, row@),
{
    assert(rows_view(v.update(x, row)) =~= rows_view(v).update(x, row@));
}

} // verus!
