use vstd::prelude::*;

use crate::datetime::Seconds;
use crate::raptor::types::RaptorTimetable;

verus! {

impl RaptorTimetable {
    /// Tells whether the timetable is well formed (`wf`).
    pub fn check_wf(&self) -> (res: bool)
        ensures
            res == self.wf(),
    {
        let n = self.stops.len();
        if self.transfers.len() != n || self.routes_serving_stops.len() != n {
            return false;
        }
        let mut r: usize = 0;
        while r < self.routes.len()
            invariant
                r <= self.routes@.len(),
                n == self.stops@.len(),
                forall|q: int, i: int|
                    0 <= q < r && 0 <= i < self.routes@[q].stops@.len() ==> (
                    #[trigger] self.routes@[q].stops@[i]).id < n,
                forall|q: int, t: int|
                    0 <= q < r && 0 <= t < self.routes@[q].trips@.len() ==> (
                    #[trigger] self.routes@[q].trips@[t]).stop_times@.len()
                        == self.routes@[q].stops@.len(),
            decreases self.routes@.len() - r,
        {
            let route = &self.routes[r];
            let mut i: usize = 0;
            while i < route.stops.len()
                invariant
                    i <= route.stops@.len(),
                    n == self.stops@.len(),
                    r < self.routes@.len(),
                    route == &self.routes@[r as int],
                    forall|j: int| 0 <= j < i ==> (#[trigger] route.stops@[j]).id < n,
                decreases route.stops@.len() - i,
            {
                if route.stops[i].id >= n {
                    assert(self.routes@[r as int].stops@[i as int].id >= n);
                    return false;
                }
                i = i + 1;
            }
            let mut t: usize = 0;
            while t < route.trips.len()
                invariant
                    t <= route.trips@.len(),
                    r < self.routes@.len(),
                    route == &self.routes@[r as int],
                    forall|u: int| 0 <= u < t ==> (#[trigger] route.trips@[u]).stop_times@.len()
                        == route.stops@.len(),
                decreases route.trips@.len() - t,
            {
                if route.trips[t].stop_times.len() != route.stops.len() {
                    assert(self.routes@[r as int].trips@[t as int].stop_times@.len()
                        != self.routes@[r as int].stops@.len());
                    return false;
                }
                t = t + 1;
            }
            r = r + 1;
        }
        let mut s: usize = 0;
        while s < n
            invariant
                s <= n,
                n == self.stops@.len(),
                self.routes_serving_stops@.len() == n,
                forall|x: int, k: int|
                    0 <= x < s && 0 <= k < self.routes_serving_stops@[x]@.len() ==> {
                        let e = #[trigger] self.routes_serving_stops@[x]@[k];
                        &&& e.route_id.id < self.routes@.len()
                        &&& e.stop_sequence < self.routes@[e.route_id.id as int].stops@.len()
                    },
            decreases n - s,
        {
            let serving = &self.routes_serving_stops[s];
            let mut k: usize = 0;
            while k < serving.len()
                invariant
                    k <= serving@.len(),
                    s < self.routes_serving_stops@.len(),
                    serving == &self.routes_serving_stops@[s as int],
                    forall|j: int|
                        0 <= j < k ==> {
                            let e = #[trigger] serving@[j];
                            &&& e.route_id.id < self.routes@.len()
                            &&& e.stop_sequence < self.routes@[e.route_id.id as int].stops@.len()
                        },
                decreases serving@.len() - k,
            {
                let e = serving[k];
                if e.route_id.id >= self.routes.len() || e.stop_sequence >= self.routes[e.route_id.id].stops.len() {
                    assert(self.routes_serving_stops@[s as int]@[k as int] == e);
                    return false;
                }
                k = k + 1;
            }
            s = s + 1;
        }
        let mut x: usize = 0;
        while x < n
            invariant
                x <= n,
                n == self.stops@.len(),
                self.transfers@.len() == n,
                forall|y: int, k: int|
                    0 <= y < x && 0 <= k < self.transfers@[y]@.len() ==> (
                    #[trigger] self.transfers@[y]@[k]).to_stop.id < n,
            decreases n - x,
        {
            let walks = &self.transfers[x];
            let mut k: usize = 0;
            while k < walks.len()
                invariant
                    k <= walks@.len(),
                    x < self.transfers@.len(),
                    n == self.stops@.len(),
                    walks == &self.transfers@[x as int],
                    forall|j: int| 0 <= j < k ==> (#[trigger] walks@[j]).to_stop.id < n,
                decreases walks@.len() - k,
            {
                if walks[k].to_stop.id >= n {
                    assert(self.transfers@[x as int]@[k as int].to_stop.id >= n);
                    return false;
                }
                k = k + 1;
            }
            x = x + 1;
        }
        true
    }

    /// Tells whether every walk added to `start`, and to every time of the timetable,
    /// fits in `Seconds` (`times_fit`).
    pub fn check_times_fit(&self, start: Seconds) -> (res: bool)
        ensures
            res == self.times_fit(start),
    {
        // the longest walk, if any
        let mut longest: Option<Seconds> = None;
        let mut s: usize = 0;
        while s < self.transfers.len()
            invariant
                s <= self.transfers@.len(),
                match longest {
                    Some(w) => (forall|x: int, k: int|
                        0 <= x < s && 0 <= k < self.transfers@[x]@.len() ==> (
                        #[trigger] self.transfers@[x]@[k]).walk_time <= w) && exists|x: int, k: int|
                        0 <= x < s && 0 <= k < self.transfers@[x]@.len() && (
                        #[trigger] self.transfers@[x]@[k]).walk_time == w,
                    None => forall|x: int| 0 <= x < s ==> (#[trigger] self.transfers@[x])@.len() == 0,
                },
            decreases self.transfers@.len() - s,
        {
            let mut k: usize = 0;
            while k < self.transfers[s].len()
                invariant
                    s < self.transfers@.len(),
                    k <= self.transfers@[s as int]@.len(),
                    match longest {
                        Some(w) => (forall|x: int, q: int|
                            (0 <= x < s && 0 <= q < self.transfers@[x]@.len()) || (x == s && 0 <= q < k)
                                ==> (#[trigger] self.transfers@[x]@[q]).walk_time <= w) && exists|x: int, q: int|
                            ((0 <= x < s && 0 <= q < self.transfers@[x]@.len()) || (x == s && 0 <= q < k))
                                && (#[trigger] self.transfers@[x]@[q]).walk_time == w,
                        None => (forall|x: int| 0 <= x < s ==> (#[trigger] self.transfers@[x])@.len() == 0) && k == 0,
                    },
                decreases self.transfers@[s as int]@.len() - k,
            {
                let w = self.transfers[s][k].walk_time;
                match longest {
                    Some(m) => {
                        if w > m {
                            longest = Some(w);
                        }
                    },
                    None => {
                        longest = Some(w);
                    },
                }
                k = k + 1;
            }
            s = s + 1;
        }
        let w = match longest {
            Some(w) => w,
            None => {
                return true;
            },
        };
        let ghost (wx, wk) = choose|x: int, k: int|
            0 <= x < self.transfers@.len() && 0 <= k < self.transfers@[x]@.len() && (
            #[trigger] self.transfers@[x]@[k]).walk_time == w;
        if start > usize::MAX - w {
            assert(start + self.transfers@[wx]@[wk].walk_time > usize::MAX);
            return false;
        }
        let mut r: usize = 0;
        while r < self.routes.len()
            invariant
                r <= self.routes@.len(),
                0 <= wx < self.transfers@.len(),
                0 <= wk < self.transfers@[wx]@.len(),
                self.transfers@[wx]@[wk].walk_time == w,
                start + w <= usize::MAX,
                forall|x: int, k: int|
                    0 <= x < self.transfers@.len() && 0 <= k < self.transfers@[x]@.len() ==> (
                    #[trigger] self.transfers@[x]@[k]).walk_time <= w,
                forall|q: int, t: int, i: int|
                    0 <= q < r && 0 <= t < self.routes@[q].trips@.len() && 0 <= i
                        < self.routes@[q].trips@[t].stop_times@.len() ==> #[trigger] self.arrival_at(q, t, i)
                        + w <= usize::MAX,
            decreases self.routes@.len() - r,
        {
            let mut t: usize = 0;
            while t < self.routes[r].trips.len()
                invariant
                    r < self.routes@.len(),
                    t <= self.routes@[r as int].trips@.len(),
                    0 <= wx < self.transfers@.len(),
                    0 <= wk < self.transfers@[wx]@.len(),
                    self.transfers@[wx]@[wk].walk_time == w,
                    forall|q: int, u: int, i: int|
                        ((0 <= q < r && 0 <= u < self.routes@[q].trips@.len()) || (q == r && 0 <= u < t))
                            && 0 <= i < self.routes@[q].trips@[u].stop_times@.len() ==> #[trigger] self.arrival_at(
                            q,
                            u,
                            i,
                        ) + w <= usize::MAX,
                decreases self.routes@[r as int].trips@.len() - t,
            {
                let mut i: usize = 0;
                while i < self.routes[r].trips[t].stop_times.len()
                    invariant
                        r < self.routes@.len(),
                        t < self.routes@[r as int].trips@.len(),
                        i <= self.routes@[r as int].trips@[t as int].stop_times@.len(),
                        0 <= wx < self.transfers@.len(),
                        0 <= wk < self.transfers@[wx]@.len(),
                        self.transfers@[wx]@[wk].walk_time == w,
                        forall|q: int, u: int, j: int|
                            (((0 <= q < r && 0 <= u < self.routes@[q].trips@.len()) || (q == r && 0 <= u < t))
                                && 0 <= j < self.routes@[q].trips@[u].stop_times@.len()) || (q == r && u == t && 0
                                <= j < i) ==> #[trigger] self.arrival_at(q, u, j) + w <= usize::MAX,
                    decreases self.routes@[r as int].trips@[t as int].stop_times@.len() - i,
                {
                    let a = self.routes[r].trips[t].stop_times[i].arrival;
                    if a > usize::MAX - w {
                        proof {
                            assert(a == self.arrival_at(r as int, t as int, i as int));
                            assert(self.arrival_at(r as int, t as int, i as int) + self.transfers@[wx]@[wk].walk_time > usize::MAX);
                        }
                        return false;
                    }
                    i = i + 1;
                }
                t = t + 1;
            }
            r = r + 1;
        }
        true
    }
}

} // verus!
