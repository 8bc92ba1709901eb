//! The queries that the service answers from its schedule snapshot.

use crate::calendar::{active_ids, active_service_ids, Service};
use crate::matcher::{legs_between, twostops, upcoming_at, upcoming_at_station};
use crate::model::{Station, StationView, Stop, Trip, TwoStopList};
use crate::order::stable_sort_of;
use crate::time::{Date, DateView, Timestamp};
use vstd::prelude::*;

verus! {

/// Why a request cannot be answered in full.
#[derive(Clone, Copy, Debug, PartialEq, Eq)]
pub enum Error {
    /// The query names a station that the schedule does not have.
    NoSuchStation(i64),
    /// The real-time feed answered with a status other than 200 and 429.
    UpstreamStatus(u16),
    /// The real-time feed's answer is too short to hold its payload.
    MalformedBody,
}

impl Error {
    /// The error says that something asked for does not exist, and not
    /// that the service failed.
    pub fn is_not_found(&self) -> (b: bool)
        ensures
            b == (*self is NoSuchStation),
    {
        match self {
            Error::NoSuchStation(_) => true,
            _ => false,
        }
    }

    /// The HTTP status that reports the error: 404 where something asked
    /// for does not exist, 500 otherwise.
    pub fn status_code(&self) -> (code: u16)
        ensures
            code == if *self is NoSuchStation {
                404u16
            } else {
                500u16
            },
    {
        if self.is_not_found() {
            404
        } else {
            500
        }
    }
}

/// A query for the stops of one trip.
#[derive(Clone, Copy, Debug, PartialEq, Eq)]
pub struct TripQuery {
    pub id: i64,
}

/// A query for the departures from `start`, or, with `end`, for the trips
/// from `start` to `end`.
#[derive(Clone, Copy, Debug, PartialEq, Eq)]
pub struct UpcomingTripsQuery {
    pub start: i64,
    pub end: Option<i64>,
}

/// The schedule snapshot: stations, scheduled stops and service
/// calendars. It is built once and only read afterwards.
#[derive(Debug)]
pub struct State {
    pub stations: Vec<Station>,
    pub stops: Vec<Stop>,
    pub services: Vec<Service>,
}

/// What a query for upcoming trips is answered with.
#[derive(Debug, PartialEq, Eq)]
pub enum UpcomingTrips {
    /// The departures from one station.
    Departures(Vec<Stop>),
    /// The trips between two stations.
    Legs(TwoStopList),
}

/// `stations[i]` is the first station with identifier `id`.
pub open spec fn is_first_with_id(stations: Seq<Station>, id: i64, i: int) -> bool {
    &&& 0 <= i < stations.len()
    &&& stations[i].station_id == id
    &&& forall|j: int| 0 <= j < i ==> (#[trigger] stations[j]).station_id != id
}

/// The first station with identifier `id`, if there is one.
pub open spec fn station_of(stations: Seq<Station>, id: i64) -> Option<StationView> {
    if exists|i: int| is_first_with_id(stations, id, i) {
        Some(stations[choose|i: int| is_first_with_id(stations, id, i)]@)
    } else {
        None
    }
}

/// A station has identifier `id` exactly if `station_of` finds one.
pub proof fn lemma_station_of_known(stations: Seq<Station>, id: i64)
    ensures
        station_of(stations, id) is Some <==> exists|i: int|
            0 <= i < stations.len() && (#[trigger] stations[i]).station_id == id,
    decreases stations.len(),
{
    if exists|i: int| 0 <= i < stations.len() && (#[trigger] stations[i]).station_id == id {
        let i = choose|i: int| 0 <= i < stations.len() && (#[trigger] stations[i]).station_id == id;
        lemma_first_exists(stations, id, i);
    }
}

proof fn lemma_first_exists(stations: Seq<Station>, id: i64, i: int)
    requires
        0 <= i < stations.len(),
        stations[i].station_id == id,
    ensures
        exists|k: int| is_first_with_id(stations, id, k),
    decreases i,
{
    if forall|j: int| 0 <= j < i ==> (#[trigger] stations[j]).station_id != id {
        assert(is_first_with_id(stations, id, i));
    } else {
        let j = choose|j: int| 0 <= j < i && (#[trigger] stations[j]).station_id == id;
        lemma_first_exists(stations, id, j);
    }
}

/// Looks a station up by its identifier.
pub fn station(id: i64, stations: &Vec<Station>) -> (res: Result<Station, Error>)
    ensures
        match res {
            Ok(found) => station_of(stations@, id) == Some(found@),
            Err(e) => station_of(stations@, id) is None && e == Error::NoSuchStation(id),
        },
{
    let mut i: usize = 0;
    while i < stations.len()
        invariant
            i <= stations.len(),
            forall|j: int| 0 <= j < i ==> (#[trigger] stations@[j]).station_id != id,
        decreases stations.len() - i,
    {
        if stations[i].station_id == id {
            assert(is_first_with_id(stations@, id, i as int));
            return Ok(stations[i].clone());
        }
        i += 1;
    }
    Err(Error::NoSuchStation(id))
}

/// The stations of the schedule.
pub fn stations(data: &State) -> (res: Vec<Station>)
    ensures
        res.len() == data.stations.len(),
        forall|i: int| 0 <= i < res.len() ==> (#[trigger] res@[i])@ == data.stations@[i]@,
{
    let mut res: Vec<Station> = Vec::new();
    let mut i: usize = 0;
    while i < data.stations.len()
        invariant
            i <= data.stations.len(),
            res.len() == i,
            forall|j: int| 0 <= j < i ==> (#[trigger] res@[j])@ == data.stations@[j]@,
        decreases data.stations.len() - i,
    {
        res.push(data.stations[i].clone());
        i += 1;
    }
    res
}

/// The stops of trip `trip_id`.
pub open spec fn on_trip(trip_id: i64) -> spec_fn(Stop) -> bool {
    |s: Stop| s.trip_id == trip_id
}

/// The stops of one trip, in schedule order. A trip that the schedule
/// does not have has no stops.
pub fn trip(query: &TripQuery, data: &State) -> (res: Trip)
    ensures
        res@.trip_id == query.id,
        res@.stops == data.stops@.filter(on_trip(query.id)),
{
    let ghost pred = on_trip(query.id);
    let mut stops: Vec<Stop> = Vec::new();
    let mut i: usize = 0;
    proof {
        reveal(Seq::filter);
        assert(data.stops@.take(0) == Seq::<Stop>::empty());
    }
    while i < data.stops.len()
        invariant
            i <= data.stops.len(),
            pred == on_trip(query.id),
            stops@ == data.stops@.take(i as int).filter(pred),
        decreases data.stops.len() - i,
    {
        proof {
            reveal(Seq::filter);
            assert(data.stops@.take(i + 1).drop_last() == data.stops@.take(i as int));
        }
        if data.stops[i].trip_id == query.id {
            stops.push(data.stops[i].clone());
        }
        i += 1;
    }
    assert(data.stops@.take(i as int) == data.stops@);
    Trip { trip_id: query.id, stops }
}

/// The departures from one station on `today` that are still to come at
/// `now`, earliest first.
pub fn get_upcoming(data: &State, station_id: i64, today: &Date, now: &Timestamp) -> (res: Vec<
    Stop,
>)
    ensures
        stable_sort_of(
            res@,
            upcoming_at(data.stops@, station_id, active_ids(data.services@, today@), *now),
        ),
{
    let services = active_service_ids(&data.services, today);
    upcoming_at_station(&data.stops, station_id, &services, now)
}

/// The legs that a query for two stations is answered with.
pub open spec fn legs_on(
    data: State,
    start_station_id: i64,
    end_station_id: i64,
    today: DateView,
    now: Timestamp,
) -> Seq<crate::model::TwoStop> {
    legs_between(
        data.stops@,
        start_station_id,
        end_station_id,
        active_ids(data.services@, today),
        now,
    )
}

/// The trips from one station to another on `today` that are still to
/// come at `now`, earliest departure first, with the two stations.
///
/// Fails where the schedule lacks one of the stations, and names the
/// first station if it lacks both.
pub fn get_twostops(
    data: &State,
    start_station_id: i64,
    end_station_id: i64,
    today: &Date,
    now: &Timestamp,
) -> (res: Result<TwoStopList, Error>)
    ensures
        match res {
            Ok(list) => {
                &&& station_of(data.stations@, start_station_id) == Some(list@.start)
                &&& station_of(data.stations@, end_station_id) == Some(list@.end)
                &&& stable_sort_of(
                    list@.trips,
                    legs_on(*data, start_station_id, end_station_id, today@, *now),
                )
            },
            Err(e) => if station_of(data.stations@, start_station_id) is None {
                e == Error::NoSuchStation(start_station_id)
            } else {
                station_of(data.stations@, end_station_id) is None && e == Error::NoSuchStation(
                    end_station_id,
                )
            },
        },
{
    let services = active_service_ids(&data.services, today);
    let trips = twostops(&data.stops, start_station_id, end_station_id, &services, now);
    let start = match station(start_station_id, &data.stations) {
        Ok(found) => found,
        Err(e) => {
            return Err(e);
        },
    };
    let end = match station(end_station_id, &data.stations) {
        Ok(found) => found,
        Err(e) => {
            return Err(e);
        },
    };
    Ok(TwoStopList { trips, start, end })
}

/// Answers a query for upcoming trips: with the trips between two
/// stations where the query names two, with the departures from the one
/// station otherwise.
///
/// Fails where the schedule lacks a station that the query names, and
/// names the first station if it lacks both.
pub fn upcoming_trips(
    query: &UpcomingTripsQuery,
    data: &State,
    today: &Date,
    now: &Timestamp,
) -> (res: Result<UpcomingTrips, Error>)
    ensures
        match (res, query.end) {
            (Ok(UpcomingTrips::Legs(list)), Some(end)) => {
                &&& station_of(data.stations@, query.start) == Some(list@.start)
                &&& station_of(data.stations@, end) == Some(list@.end)
                &&& stable_sort_of(list@.trips, legs_on(*data, query.start, end, today@, *now))
            },
            (Ok(UpcomingTrips::Departures(stops)), None) => {
                &&& station_of(data.stations@, query.start) is Some
                &&& stable_sort_of(
                    stops@,
                    upcoming_at(
                        data.stops@,
                        query.start,
                        active_ids(data.services@, today@),
                        *now,
                    ),
                )
            },
            (Err(e), Some(end)) => if station_of(data.stations@, query.start) is None {
                e == Error::NoSuchStation(query.start)
            } else {
                station_of(data.stations@, end) is None && e == Error::NoSuchStation(end)
            },
            (Err(e), None) => station_of(data.stations@, query.start) is None && e
                == Error::NoSuchStation(query.start),
            _ => false,
        },
{
    match query.end {
        Some(end) => match get_twostops(data, query.start, end, today, now) {
            Ok(list) => Ok(UpcomingTrips::Legs(list)),
            Err(e) => Err(e),
        },
        None => match station(query.start, &data.stations) {
            Ok(_) => Ok(UpcomingTrips::Departures(get_upcoming(data, query.start, today, now))),
            Err(e) => Err(e),
        },
    }
}

} // verus!
