//! The schedule's data: stations, scheduled stops, two-station legs and trips.

use crate::time::Timestamp;
use vstd::prelude::*;

verus! {

/// A station: one name and identifier for one or more platform codes of
/// the real-time feed.
#[derive(Debug, PartialEq, Eq)]
pub struct Station {
    pub name: String,
    pub station_id: i64,
    pub stop_codes: Vec<i64>,
}

/// What a [`Station`] holds, as mathematical values.
pub struct StationView {
    pub name: Seq<char>,
    pub station_id: i64,
    pub stop_codes: Seq<i64>,
}

impl View for Station {
    type V = StationView;

    open spec fn view(&self) -> StationView {
        StationView {
            name: self.name@,
            station_id: self.station_id,
            stop_codes: self.stop_codes@,
        }
    }
}

impl Clone for Station {
    fn clone(&self) -> (res: Self)
        ensures
            res@ == self@,
            res.name == self.name,
    {
        let mut stop_codes: Vec<i64> = Vec::new();
        let mut i: usize = 0;
        while i < self.stop_codes.len()
            invariant
                i <= self.stop_codes.len(),
                stop_codes@ == self.stop_codes@.take(i as int),
            decreases self.stop_codes.len() - i,
        {
            stop_codes.push(self.stop_codes[i]);
            assert(self.stop_codes@.take(i + 1) == self.stop_codes@.take(i as int).push(
                self.stop_codes@[i as int],
            ));
            i += 1;
        }
        assert(self.stop_codes@.take(i as int) == self.stop_codes@);
        Station { name: self.name.clone(), station_id: self.station_id, stop_codes }
    }
}

impl Default for Station {
    fn default() -> (res: Self)
        ensures
            res@.name.len() == 0,
            res@.station_id == 0,
            res@.stop_codes.len() == 0,
    {
        Station { name: String::new(), station_id: 0, stop_codes: Vec::new() }
    }
}

/// One trip's scheduled visit to one station.
#[derive(Debug, PartialEq, Eq)]
pub struct Stop {
    pub station_id: i64,
    pub trip_id: i64,
    pub station_name: String,
    pub arrival: Timestamp,
    pub departure: Timestamp,
    pub service_id: String,
}

/// What a [`Stop`] holds, as mathematical values.
pub struct StopView {
    pub station_id: i64,
    pub trip_id: i64,
    pub station_name: Seq<char>,
    pub arrival: Timestamp,
    pub departure: Timestamp,
    pub service_id: Seq<char>,
}

impl View for Stop {
    type V = StopView;

    open spec fn view(&self) -> StopView {
        StopView {
            station_id: self.station_id,
            trip_id: self.trip_id,
            station_name: self.station_name@,
            arrival: self.arrival,
            departure: self.departure,
            service_id: self.service_id@,
        }
    }
}

/// The view of a stop.
pub open spec fn stop_view() -> spec_fn(Stop) -> StopView {
    |s: Stop| s@
}

impl Clone for Stop {
    fn clone(&self) -> (res: Self)
        ensures
            res == *self,
    {
        Stop {
            station_id: self.station_id,
            trip_id: self.trip_id,
            station_name: self.station_name.clone(),
            arrival: self.arrival,
            departure: self.departure,
            service_id: self.service_id.clone(),
        }
    }
}

/// One trip's visits to an origin and a destination station.
#[derive(Debug, PartialEq, Eq)]
pub struct TwoStop {
    pub trip_id: i64,
    pub start: Stop,
    pub end: Stop,
}

impl Clone for TwoStop {
    fn clone(&self) -> (res: Self)
        ensures
            res == *self,
    {
        TwoStop { trip_id: self.trip_id, start: self.start.clone(), end: self.end.clone() }
    }
}

/// The legs between two stations, with the stations themselves.
#[derive(Debug, PartialEq, Eq)]
pub struct TwoStopList {
    pub start: Station,
    pub end: Station,
    pub trips: Vec<TwoStop>,
}

/// What a [`TwoStopList`] holds, as mathematical values.
pub struct TwoStopListView {
    pub start: StationView,
    pub end: StationView,
    pub trips: Seq<TwoStop>,
}

impl View for TwoStopList {
    type V = TwoStopListView;

    open spec fn view(&self) -> TwoStopListView {
        TwoStopListView { start: self.start@, end: self.end@, trips: self.trips@ }
    }
}

impl Default for TwoStopList {
    fn default() -> (res: Self)
        ensures
            res@.start == Station::default_view(),
            res@.end == Station::default_view(),
            res@.trips.len() == 0,
    {
        let res = TwoStopList {
            start: Station::default(),
            end: Station::default(),
            trips: Vec::new(),
        };
        assert(res@.start.name =~= Seq::empty());
        assert(res@.start.stop_codes =~= Seq::empty());
        assert(res@.end.name =~= Seq::empty());
        assert(res@.end.stop_codes =~= Seq::empty());
        res
    }
}

impl Station {
    /// The view of the station that `Station::default` returns.
    pub open spec fn default_view() -> StationView {
        StationView { name: Seq::empty(), station_id: 0, stop_codes: Seq::empty() }
    }
}

/// The stops of one trip.
#[derive(Debug, PartialEq, Eq)]
pub struct Trip {
    pub trip_id: i64,
    pub stops: Vec<Stop>,
}

/// What a [`Trip`] holds, as mathematical values.
pub struct TripView {
    pub trip_id: i64,
    pub stops: Seq<Stop>,
}

impl View for Trip {
    type V = TripView;

    open spec fn view(&self) -> TripView {
        TripView { trip_id: self.trip_id, stops: self.stops@ }
    }
}

/// Copies a list of stops.
pub fn clone_stops(stops: &Vec<Stop>) -> (res: Vec<Stop>)
    ensures
        res@ == stops@,
{
    let mut res: Vec<Stop> = Vec::new();
    let mut i: usize = 0;
    while i < stops.len()
        invariant
            i <= stops.len(),
            res@ == stops@.take(i as int),
        decreases stops.len() - i,
    {
        res.push(stops[i].clone());
        assert(stops@.take(i + 1) == stops@.take(i as int).push(stops@[i as int]));
        i += 1;
    }
    assert(stops@.take(i as int) == stops@);
    res
}

} // verus!
