//! Matching scheduled stops against one station or a pair of stations.

use crate::model::{Stop, TwoStop};
use crate::order::{sort_by_time, stable_sort_of, Timed};
use crate::time::Timestamp;
use vstd::prelude::*;

verus! {

/// A stop is ordered by its departure.
impl Timed for Stop {
    open spec fn instant(&self) -> Timestamp {
        self.departure
    }

    fn time(&self) -> (t: Timestamp) {
        self.departure
    }
}

/// A leg is ordered by the departure from its first station.
impl Timed for TwoStop {
    open spec fn instant(&self) -> Timestamp {
        self.start.departure
    }

    fn time(&self) -> (t: Timestamp) {
        self.start.departure
    }
}

/// `id` is one of `services`.
pub open spec fn lists(services: Seq<String>, id: Seq<char>) -> bool {
    exists|i: int| 0 <= i < services.len() && (#[trigger] services[i])@ == id
}

/// Whether `id` is one of `services`.
pub fn is_listed(services: &Vec<String>, id: &String) -> (b: bool)
    ensures
        b == lists(services@, id@),
{
    let mut i: usize = 0;
    while i < services.len()
        invariant
            i <= services.len(),
            forall|j: int| 0 <= j < i ==> (#[trigger] services@[j])@ != id@,
        decreases services.len() - i,
    {
        if services[i] == *id {
            return true;
        }
        i += 1;
    }
    false
}

/// The stops at `station_id` that run under one of `services` and leave
/// after `now`.
pub open spec fn departs_after(station_id: i64, services: Seq<String>, now: Timestamp) -> spec_fn(
    Stop,
) -> bool {
    |s: Stop|
        s.station_id == station_id && lists(services, s.service_id@) && now.before(s.departure)
}

/// The stops of `stops` that [`departs_after`] admits, in schedule order.
pub open spec fn upcoming_at(
    stops: Seq<Stop>,
    station_id: i64,
    services: Seq<String>,
    now: Timestamp,
) -> Seq<Stop> {
    stops.filter(departs_after(station_id, services, now))
}

/// The departures from one station that are still to come, earliest
/// first. Stops that leave at the same instant keep their schedule order.
/// A station that no stop names yields an empty list.
pub fn upcoming_at_station(
    stops: &Vec<Stop>,
    station_id: i64,
    services: &Vec<String>,
    now: &Timestamp,
) -> (res: Vec<Stop>)
    ensures
        stable_sort_of(res@, upcoming_at(stops@, station_id, services@, *now)),
{
    let ghost pred = departs_after(station_id, services@, *now);
    let mut found: Vec<Stop> = Vec::new();
    let mut i: usize = 0;
    proof {
        reveal(Seq::filter);
        assert(stops@.take(0) == Seq::<Stop>::empty());
    }
    while i < stops.len()
        invariant
            i <= stops.len(),
            pred == departs_after(station_id, services@, *now),
            found@ == stops@.take(i as int).filter(pred),
        decreases stops.len() - i,
    {
        let stop = &stops[i];
        proof {
            reveal(Seq::filter);
            assert(stops@.take(i + 1).drop_last() == stops@.take(i as int));
        }
        if stop.station_id == station_id && now.is_before(&stop.departure) && is_listed(
            services,
            &stop.service_id,
        ) {
            found.push(stop.clone());
        }
        i += 1;
    }
    assert(stops@.take(i as int) == stops@);
    sort_by_time(found)
}

/// The visits of trip `trip_id` to `station_id` under one of `services`.
pub open spec fn is_visit(trip_id: i64, station_id: i64, services: Seq<String>) -> spec_fn(
    Stop,
) -> bool {
    |s: Stop| s.trip_id == trip_id && s.station_id == station_id && lists(services, s.service_id@)
}

/// The stops of `stops` that [`is_visit`] admits, in schedule order.
pub open spec fn visits(
    stops: Seq<Stop>,
    trip_id: i64,
    station_id: i64,
    services: Seq<String>,
) -> Seq<Stop> {
    stops.filter(is_visit(trip_id, station_id, services))
}

/// A leg from `start` to `end` is worth showing at `now`: the train has
/// neither left the first station nor reached the second, and it does not
/// leave the second station before it reaches the first.
pub open spec fn keeps(start: Stop, end: Stop, now: Timestamp) -> bool {
    &&& !start.departure.before(now)
    &&& !end.arrival.before(now)
    &&& !end.departure.before(start.arrival)
}

/// The leg of trip `trip_id` from `start_id` to `end_id`, if the trip
/// visits each of the two stations exactly once and [`keeps`] admits the
/// pair.
pub open spec fn leg_of(
    stops: Seq<Stop>,
    trip_id: i64,
    start_id: i64,
    end_id: i64,
    services: Seq<String>,
    now: Timestamp,
) -> Option<TwoStop> {
    let starts = visits(stops, trip_id, start_id, services);
    let ends = visits(stops, trip_id, end_id, services);
    if starts.len() == 1 && ends.len() == 1 && keeps(starts[0], ends[0], now) {
        Some(TwoStop { trip_id, start: starts[0], end: ends[0] })
    } else {
        None
    }
}

/// The stops at `start_id` whose trip has a leg to `end_id`.
pub open spec fn starts_leg(
    stops: Seq<Stop>,
    start_id: i64,
    end_id: i64,
    services: Seq<String>,
    now: Timestamp,
) -> spec_fn(Stop) -> bool {
    |s: Stop|
        s.station_id == start_id && lists(services, s.service_id@) && leg_of(
            stops,
            s.trip_id,
            start_id,
            end_id,
            services,
            now,
        ) is Some
}

/// The leg that the trip of a stop has.
pub open spec fn leg_from(
    stops: Seq<Stop>,
    start_id: i64,
    end_id: i64,
    services: Seq<String>,
    now: Timestamp,
) -> spec_fn(Stop) -> TwoStop {
    |s: Stop| leg_of(stops, s.trip_id, start_id, end_id, services, now).unwrap()
}

/// Every leg from `start_id` to `end_id`, once, in the schedule order of
/// the stops that the legs start with.
pub open spec fn legs_between(
    stops: Seq<Stop>,
    start_id: i64,
    end_id: i64,
    services: Seq<String>,
    now: Timestamp,
) -> Seq<TwoStop> {
    stops.filter(starts_leg(stops, start_id, end_id, services, now)).map_values(
        leg_from(stops, start_id, end_id, services, now),
    )
}

/// Counts the visits of one trip to one station and finds the first.
fn find_visits(stops: &Vec<Stop>, trip_id: i64, station_id: i64, services: &Vec<String>) -> (res: (
    usize,
    usize,
))
    ensures
        res.0 == visits(stops@, trip_id, station_id, services@).len(),
        res.0 > 0 ==> res.1 < stops.len() && stops@[res.1 as int] == visits(
            stops@,
            trip_id,
            station_id,
            services@,
        )[0],
{
    let ghost pred = is_visit(trip_id, station_id, services@);
    let mut count: usize = 0;
    let mut first: usize = 0;
    let mut i: usize = 0;
    proof {
        reveal(Seq::filter);
        assert(stops@.take(0) == Seq::<Stop>::empty());
    }
    while i < stops.len()
        invariant
            i <= stops.len(),
            count <= i,
            pred == is_visit(trip_id, station_id, services@),
            count == stops@.take(i as int).filter(pred).len(),
            count > 0 ==> first < i && stops@[first as int] == stops@.take(i as int).filter(
                pred,
            )[0],
        decreases stops.len() - i,
    {
        let stop = &stops[i];
        proof {
            reveal(Seq::filter);
            assert(stops@.take(i + 1).drop_last() == stops@.take(i as int));
        }
        if stop.trip_id == trip_id && stop.station_id == station_id && is_listed(
            services,
            &stop.service_id,
        ) {
            if count == 0 {
                first = i;
            }
            count += 1;
        }
        i += 1;
    }
    assert(stops@.take(i as int) == stops@);
    (count, first)
}

/// The trips that run from `start_station` to `end_station`, earliest
/// departure first.
///
/// A trip counts if, under one of `services`, it visits each of the two
/// stations exactly once; a trip with no visit or with several to either
/// station is left out. A leg is dropped once its train has left the first
/// station or reached the second before `now`, and when the train would
/// leave the second station before it reaches the first. Legs that leave
/// at the same instant keep the schedule order of their first stops.
/// Stations that no stop names yield an empty list.
pub fn twostops(
    stops: &Vec<Stop>,
    start_station: i64,
    end_station: i64,
    services: &Vec<String>,
    now: &Timestamp,
) -> (res: Vec<TwoStop>)
    ensures
        stable_sort_of(res@, legs_between(stops@, start_station, end_station, services@, *now)),
{
    let ghost pred = starts_leg(stops@, start_station, end_station, services@, *now);
    let ghost leg = leg_from(stops@, start_station, end_station, services@, *now);
    let mut legs: Vec<TwoStop> = Vec::new();
    let mut i: usize = 0;
    proof {
        reveal(Seq::filter);
        assert(stops@.take(0) == Seq::<Stop>::empty());
        assert(stops@.take(0).filter(pred).map_values(leg) == Seq::<TwoStop>::empty());
    }
    while i < stops.len()
        invariant
            i <= stops.len(),
            pred == starts_leg(stops@, start_station, end_station, services@, *now),
            leg == leg_from(stops@, start_station, end_station, services@, *now),
            legs@ == stops@.take(i as int).filter(pred).map_values(leg),
        decreases stops.len() - i,
    {
        let stop = &stops[i];
        let ghost done = stops@.take(i as int).filter(pred);
        proof {
            reveal(Seq::filter);
            assert(stops@.take(i + 1).drop_last() == stops@.take(i as int));
        }
        if stop.station_id == start_station && is_listed(services, &stop.service_id) {
            let (starts, first) = find_visits(stops, stop.trip_id, start_station, services);
            let (ends, last) = find_visits(stops, stop.trip_id, end_station, services);
            if starts == 1 && ends == 1 {
                let start = &stops[first];
                let end = &stops[last];
                if !start.departure.is_before(now) && !end.arrival.is_before(now)
                    && !end.departure.is_before(&start.arrival) {
                    legs.push(
                        TwoStop { trip_id: stop.trip_id, start: start.clone(), end: end.clone() },
                    );
                    proof {
                        assert(pred(*stop));
                        assert(done.push(*stop).map_values(leg) == done.map_values(leg).push(
                            leg(*stop),
                        ));
                    }
                }
            }
        }
        i += 1;
    }
    assert(stops@.take(i as int) == stops@);
    sort_by_time(legs)
}

/// What every upcoming departure is: a stop of the schedule at the station
/// asked for, under a listed service, that leaves after `now`.
pub proof fn lemma_upcoming_stops(
    stops: Seq<Stop>,
    station_id: i64,
    services: Seq<String>,
    now: Timestamp,
    res: Seq<Stop>,
    i: int,
)
    requires
        stable_sort_of(res, upcoming_at(stops, station_id, services, now)),
        0 <= i < res.len(),
    ensures
        stops.contains(res[i]),
        res[i].station_id == station_id,
        lists(services, res[i].service_id@),
        now.before(res[i].departure),
{
    let pred = departs_after(station_id, services, now);
    let found = upcoming_at(stops, station_id, services, now);
    crate::order::lemma_stable_sort_contains(res, found, i);
    let k = choose|k: int| 0 <= k < found.len() && found[k] == res[i];
    stops.lemma_filter_pred(pred, k);
    stops.lemma_filter_contains_rev(pred, res[i]);
}

/// What every leg is: two stops of the schedule, of one trip, the first
/// at the first station and the second at the second, both under a listed
/// service, that [`keeps`] admits. In particular no leg leaves its second
/// station before it reaches its first.
pub proof fn lemma_leg_stops(
    stops: Seq<Stop>,
    start_id: i64,
    end_id: i64,
    services: Seq<String>,
    now: Timestamp,
    res: Seq<TwoStop>,
    i: int,
)
    requires
        stable_sort_of(res, legs_between(stops, start_id, end_id, services, now)),
        0 <= i < res.len(),
    ensures
        leg_of(stops, res[i].trip_id, start_id, end_id, services, now) == Some(res[i]),
        stops.contains(res[i].start),
        stops.contains(res[i].end),
        res[i].start.trip_id == res[i].trip_id,
        res[i].end.trip_id == res[i].trip_id,
        res[i].start.station_id == start_id,
        res[i].end.station_id == end_id,
        lists(services, res[i].start.service_id@),
        lists(services, res[i].end.service_id@),
        keeps(res[i].start, res[i].end, now),
        !res[i].end.departure.before(res[i].start.arrival),
{
    let pred = starts_leg(stops, start_id, end_id, services, now);
    let leg = leg_from(stops, start_id, end_id, services, now);
    let legs = legs_between(stops, start_id, end_id, services, now);
    crate::order::lemma_stable_sort_contains(res, legs, i);
    let k = choose|k: int| 0 <= k < legs.len() && legs[k] == res[i];
    let first = stops.filter(pred)[k];
    stops.lemma_filter_pred(pred, k);
    assert(legs[k] == leg(first));
    let trip_id = first.trip_id;
    let starts = visits(stops, trip_id, start_id, services);
    let ends = visits(stops, trip_id, end_id, services);
    stops.lemma_filter_pred(is_visit(trip_id, start_id, services), 0);
    stops.lemma_filter_pred(is_visit(trip_id, end_id, services), 0);
    assert(starts.contains(starts[0]));
    assert(ends.contains(ends[0]));
    stops.lemma_filter_contains_rev(is_visit(trip_id, start_id, services), starts[0]);
    stops.lemma_filter_contains_rev(is_visit(trip_id, end_id, services), ends[0]);
}

/// A trip appears in the legs at most once.
pub proof fn lemma_legs_one_per_trip(
    stops: Seq<Stop>,
    start_id: i64,
    end_id: i64,
    services: Seq<String>,
    now: Timestamp,
    i: int,
    j: int,
)
    requires
        0 <= i < j < legs_between(stops, start_id, end_id, services, now).len(),
    ensures
        legs_between(stops, start_id, end_id, services, now)[i].trip_id != legs_between(
            stops,
            start_id,
            end_id,
            services,
            now,
        )[j].trip_id,
{
    let pred = starts_leg(stops, start_id, end_id, services, now);
    let legs = legs_between(stops, start_id, end_id, services, now);
    let firsts = stops.filter(pred);
    let a = firsts[i];
    let b = firsts[j];
    stops.lemma_filter_pred(pred, i);
    stops.lemma_filter_pred(pred, j);
    if a.trip_id == b.trip_id {
        // both are visits of the trip to the first station, which has one
        let visit = is_visit(a.trip_id, start_id, services);
        assert forall|x: Stop| pred(x) && x.trip_id == a.trip_id implies visit(x) by {}
        lemma_filter_twice(stops, pred, visit, i, j);
    }
}

/// Two stops that a filter keeps, and that a second filter admits too,
/// are two of the stops that the second filter keeps.
proof fn lemma_filter_twice(
    s: Seq<Stop>,
    p: spec_fn(Stop) -> bool,
    q: spec_fn(Stop) -> bool,
    i: int,
    j: int,
)
    requires
        0 <= i < j < s.filter(p).len(),
        q(s.filter(p)[i]),
        q(s.filter(p)[j]),
    ensures
        s.filter(q).len() >= 2,
    decreases s.len(),
{
    reveal(Seq::filter);
    if s.len() > 0 {
        let rest = s.drop_last();
        let kept = rest.filter(p);
        if p(s.last()) && j == kept.len() {
            // the second stop is the last one; the first is kept before it
            assert(s.filter(p)[i] == kept[i]);
            assert(kept.contains(kept[i]));
            rest.lemma_filter_contains_rev(p, kept[i]);
            let k = choose|k: int| 0 <= k < rest.len() && rest[k] == kept[i];
            rest.lemma_filter_contains(q, k);
            assert(rest.filter(q).len() >= 1);
        } else {
            assert(s.filter(p)[i] == kept[i]);
            assert(s.filter(p)[j] == kept[j]);
            lemma_filter_twice(rest, p, q, i, j);
            rest.lemma_filter_len(q);
        }
    }
}

/// No leg is lost: a trip that has a leg is among the legs, sorted or not.
pub proof fn lemma_legs_complete(
    stops: Seq<Stop>,
    start_id: i64,
    end_id: i64,
    services: Seq<String>,
    now: Timestamp,
    res: Seq<TwoStop>,
    trip_id: i64,
)
    requires
        stable_sort_of(res, legs_between(stops, start_id, end_id, services, now)),
        leg_of(stops, trip_id, start_id, end_id, services, now) is Some,
    ensures
        legs_between(stops, start_id, end_id, services, now).contains(
            leg_of(stops, trip_id, start_id, end_id, services, now).unwrap(),
        ),
        res.contains(leg_of(stops, trip_id, start_id, end_id, services, now).unwrap()),
{
    let pred = starts_leg(stops, start_id, end_id, services, now);
    let leg = leg_from(stops, start_id, end_id, services, now);
    let legs = legs_between(stops, start_id, end_id, services, now);
    let visit = is_visit(trip_id, start_id, services);
    let starts = visits(stops, trip_id, start_id, services);
    stops.lemma_filter_pred(visit, 0);
    assert(starts.contains(starts[0]));
    stops.lemma_filter_contains_rev(visit, starts[0]);
    let k = choose|k: int| 0 <= k < stops.len() && stops[k] == starts[0];
    assert(pred(stops[k]));
    stops.lemma_filter_contains(pred, k);
    let m = choose|m: int| 0 <= m < stops.filter(pred).len() && stops.filter(pred)[m] == stops[k];
    assert(legs[m] == leg(stops[k]));
    crate::order::lemma_stable_sort_keeps(res, legs, legs[m]);
}

/// The order of the legs: no leg is followed by one that leaves earlier,
/// and the list is fixed by the schedule, the two stations, the services
/// and `now`: two lists that are both what [`twostops`] may return are
/// the same list, leg for leg.
pub proof fn lemma_legs_order(
    stops: Seq<Stop>,
    start_id: i64,
    end_id: i64,
    services: Seq<String>,
    now: Timestamp,
    first: Seq<TwoStop>,
    second: Seq<TwoStop>,
)
    requires
        stable_sort_of(first, legs_between(stops, start_id, end_id, services, now)),
        stable_sort_of(second, legs_between(stops, start_id, end_id, services, now)),
    ensures
        forall|i: int, j: int|
            0 <= i < j < first.len() ==> !(#[trigger] first[j]).start.departure.before(
                (#[trigger] first[i]).start.departure,
            ),
        first == second,
{
    crate::order::lemma_stable_sort_unique(
        first,
        second,
        legs_between(stops, start_id, end_id, services, now),
    );
}

/// The order of the departures: no stop is followed by one that leaves
/// earlier, and the list is fixed by the schedule, the station, the
/// services and `now`.
pub proof fn lemma_upcoming_order(
    stops: Seq<Stop>,
    station_id: i64,
    services: Seq<String>,
    now: Timestamp,
    first: Seq<Stop>,
    second: Seq<Stop>,
)
    requires
        stable_sort_of(first, upcoming_at(stops, station_id, services, now)),
        stable_sort_of(second, upcoming_at(stops, station_id, services, now)),
    ensures
        forall|i: int, j: int|
            0 <= i < j < first.len() ==> !(#[trigger] first[j]).departure.before(
                (#[trigger] first[i]).departure,
            ),
        first == second,
{
    crate::order::lemma_stable_sort_unique(
        first,
        second,
        upcoming_at(stops, station_id, services, now),
    );
}

} // verus!
