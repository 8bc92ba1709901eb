//! Laying real-time estimates over scheduled times.

use crate::model::{Stop, TwoStop};
use crate::time::Timestamp;
use vstd::prelude::*;

verus! {

/// A scheduled time with the real-time estimate for it, where there is
/// one.
#[derive(Clone, Copy, Debug, PartialEq, Eq, Structural)]
pub struct Time {
    pub scheduled: Timestamp,
    pub estimated: Option<Timestamp>,
}

impl Time {
    /// The time that counts: the estimate where there is one, the
    /// scheduled time otherwise.
    pub open spec fn effective(self) -> Timestamp {
        match self.estimated {
            Some(estimated) => estimated,
            None => self.scheduled,
        }
    }

    /// The time that counts wherever times are compared or shown.
    pub fn effective_time(&self) -> (res: Timestamp)
        ensures
            res == self.effective(),
    {
        match self.estimated {
            Some(estimated) => estimated,
            None => self.scheduled,
        }
    }

    /// There is an estimate.
    pub fn is_live(&self) -> (b: bool)
        ensures
            b == (self.estimated is Some),
    {
        self.estimated.is_some()
    }
}

/// The style class of a time in a list of stops: none for a time that is
/// yet to come at `now`, `TrainView--timePast` for any other. The time
/// that counts decides.
pub fn time_class(time: &Time, now: &Timestamp) -> (res: &'static str)
    ensures
        res@ == if now.before(time.effective()) {
            ""@
        } else {
            "TrainView--timePast"@
        },
{
    if now.is_before(&time.effective_time()) {
        ""
    } else {
        "TrainView--timePast"
    }
}

/// The style class of a trip by the band of its number: `local` for the
/// hundreds 1 and 4, `limited` for 2, `bullet` for 3 and 8, none for any
/// other number. The band is for display alone.
pub fn train_class(trip_id: i64) -> (res: &'static str)
    ensures
        res@ == if 100 <= trip_id < 200 || 400 <= trip_id < 500 {
            "local"@
        } else if 200 <= trip_id < 300 {
            "limited"@
        } else if 300 <= trip_id < 400 || 800 <= trip_id < 900 {
            "bullet"@
        } else {
            ""@
        },
{
    if (100 <= trip_id && trip_id < 200) || (400 <= trip_id && trip_id < 500) {
        "local"
    } else if 200 <= trip_id && trip_id < 300 {
        "limited"
    } else if (300 <= trip_id && trip_id < 400) || (800 <= trip_id && trip_id < 900) {
        "bullet"
    } else {
        ""
    }
}

/// The overlays that the real-time feed gave last.
#[derive(Debug)]
pub struct LiveStatus {
    pub stops: Vec<Stop>,
}

/// `stops[i]` is the first overlay for the visit of `trip_id` to
/// `station_id`.
pub open spec fn is_first_overlay(stops: Seq<Stop>, station_id: i64, trip_id: i64, i: int) -> bool {
    &&& 0 <= i < stops.len()
    &&& stops[i].trip_id == trip_id
    &&& stops[i].station_id == station_id
    &&& forall|j: int|
        0 <= j < i ==> !((#[trigger] stops[j]).trip_id == trip_id && stops[j].station_id
            == station_id)
}

/// The first overlay for the visit of `trip_id` to `station_id`, if there
/// is one.
pub open spec fn overlay_for(stops: Seq<Stop>, station_id: i64, trip_id: i64) -> Option<Stop> {
    if exists|i: int| is_first_overlay(stops, station_id, trip_id, i) {
        Some(stops[choose|i: int| is_first_overlay(stops, station_id, trip_id, i)])
    } else {
        None
    }
}

/// The departure of a scheduled stop with its estimate.
pub open spec fn departure_of(live: Seq<Stop>, stop: Stop) -> Time {
    Time {
        scheduled: stop.departure,
        estimated: match overlay_for(live, stop.station_id, stop.trip_id) {
            Some(overlay) => Some(overlay.departure),
            None => None,
        },
    }
}

/// The arrival of a scheduled stop with its estimate.
pub open spec fn arrival_of(live: Seq<Stop>, stop: Stop) -> Time {
    Time {
        scheduled: stop.arrival,
        estimated: match overlay_for(live, stop.station_id, stop.trip_id) {
            Some(overlay) => Some(overlay.arrival),
            None => None,
        },
    }
}

impl LiveStatus {
    /// The overlay for the visit of trip `trip_id` to station
    /// `station_id`; the first, should there be several.
    pub fn get(&self, station_id: i64, trip_id: i64) -> (res: Option<Stop>)
        ensures
            res == overlay_for(self.stops@, station_id, trip_id),
    {
        let mut i: usize = 0;
        while i < self.stops.len()
            invariant
                i <= self.stops.len(),
                forall|j: int|
                    0 <= j < i ==> !((#[trigger] self.stops@[j]).trip_id == trip_id
                        && self.stops@[j].station_id == station_id),
            decreases self.stops.len() - i,
        {
            if self.stops[i].trip_id == trip_id && self.stops[i].station_id == station_id {
                assert(is_first_overlay(self.stops@, station_id, trip_id, i as int));
                return Some(self.stops[i].clone());
            }
            i += 1;
        }
        None
    }

    /// All overlays.
    pub fn all(&self) -> (res: &Vec<Stop>)
        ensures
            res@ == self.stops@,
    {
        &self.stops
    }

    /// The departure of a scheduled stop with its estimate.
    pub fn departure(&self, stop: &Stop) -> (res: Time)
        ensures
            res == departure_of(self.stops@, *stop),
    {
        let estimated = match self.get(stop.station_id, stop.trip_id) {
            Some(overlay) => Some(overlay.departure),
            None => None,
        };
        Time { scheduled: stop.departure, estimated }
    }

    /// The arrival of a scheduled stop with its estimate.
    pub fn arrival(&self, stop: &Stop) -> (res: Time)
        ensures
            res == arrival_of(self.stops@, *stop),
    {
        let estimated = match self.get(stop.station_id, stop.trip_id) {
            Some(overlay) => Some(overlay.arrival),
            None => None,
        };
        Time { scheduled: stop.arrival, estimated }
    }
}

/// The stops that are yet to leave at `now`, by the time that counts.
pub open spec fn still_to_leave(live: Seq<Stop>, now: Timestamp) -> spec_fn(Stop) -> bool {
    |stop: Stop| now.before(departure_of(live, stop).effective())
}

/// The legs that are yet to leave at `now`, by the time that counts.
pub open spec fn leg_still_to_leave(live: Seq<Stop>, now: Timestamp) -> spec_fn(TwoStop) -> bool {
    |leg: TwoStop| now.before(departure_of(live, leg.start).effective())
}

/// The first `count` of the stops that are yet to leave at `now`: a stop
/// for which the feed gave an estimate counts by the estimate, any other
/// by the schedule. Fewer where there are fewer.
pub fn departures(stops: &Vec<Stop>, live: &LiveStatus, now: &Timestamp, count: usize) -> (res: Vec<
    Stop,
>)
    ensures
        res@ == stops@.filter(still_to_leave(live.stops@, *now)).take(
            if count <= stops@.filter(still_to_leave(live.stops@, *now)).len() {
                count as int
            } else {
                stops@.filter(still_to_leave(live.stops@, *now)).len() as int
            },
        ),
{
    let ghost pred = still_to_leave(live.stops@, *now);
    let mut res: Vec<Stop> = Vec::new();
    let mut i: usize = 0;
    proof {
        reveal(Seq::filter);
        assert(stops@.take(0) == Seq::<Stop>::empty());
    }
    while i < stops.len() && res.len() < count
        invariant
            i <= stops.len(),
            res.len() <= count,
            pred == still_to_leave(live.stops@, *now),
            res@ == stops@.take(i as int).filter(pred),
        decreases stops.len() - i,
    {
        proof {
            reveal(Seq::filter);
            assert(stops@.take(i + 1).drop_last() == stops@.take(i as int));
        }
        if now.is_before(&live.departure(&stops[i]).effective_time()) {
            res.push(stops[i].clone());
        }
        i += 1;
    }
    proof {
        let all = stops@.filter(pred);
        assert(stops@ == stops@.take(i as int) + stops@.skip(i as int));
        Seq::filter_distributes_over_add(stops@.take(i as int), stops@.skip(i as int), pred);
        assert(all.take(res@.len() as int) == res@);
        if i == stops.len() {
            assert(stops@.skip(i as int) == Seq::<Stop>::empty());
            assert(all == res@);
        }
    }
    res
}

/// The first `count` of the legs that are yet to leave their first
/// station at `now`, by the time that counts. Fewer where there are
/// fewer.
pub fn next_legs(legs: &Vec<TwoStop>, live: &LiveStatus, now: &Timestamp, count: usize) -> (res:
    Vec<TwoStop>)
    ensures
        res@ == legs@.filter(leg_still_to_leave(live.stops@, *now)).take(
            if count <= legs@.filter(leg_still_to_leave(live.stops@, *now)).len() {
                count as int
            } else {
                legs@.filter(leg_still_to_leave(live.stops@, *now)).len() as int
            },
        ),
{
    let ghost pred = leg_still_to_leave(live.stops@, *now);
    let mut res: Vec<TwoStop> = Vec::new();
    let mut i: usize = 0;
    proof {
        reveal(Seq::filter);
        assert(legs@.take(0) == Seq::<TwoStop>::empty());
    }
    while i < legs.len() && res.len() < count
        invariant
            i <= legs.len(),
            res.len() <= count,
            pred == leg_still_to_leave(live.stops@, *now),
            res@ == legs@.take(i as int).filter(pred),
        decreases legs.len() - i,
    {
        proof {
            reveal(Seq::filter);
            assert(legs@.take(i + 1).drop_last() == legs@.take(i as int));
        }
        if now.is_before(&live.departure(&legs[i].start).effective_time()) {
            res.push(legs[i].clone());
        }
        i += 1;
    }
    proof {
        let all = legs@.filter(pred);
        assert(legs@ == legs@.take(i as int) + legs@.skip(i as int));
        Seq::filter_distributes_over_add(legs@.take(i as int), legs@.skip(i as int), pred);
        assert(all.take(res@.len() as int) == res@);
        if i == legs.len() {
            assert(legs@.skip(i as int) == Seq::<TwoStop>::empty());
            assert(all == res@);
        }
    }
    res
}

} // verus!
