//! The real-time feed: its records, the overlays made from them, and the
//! cache that decides when the feed is asked again.

use crate::model::{Station, Stop, StopView};
use crate::number::{i64_value, parse_i64};
use crate::time::Timestamp;
use vstd::prelude::*;
use vstd::utf8::encode_utf8;

verus! {

/// The feed's answer.
#[derive(Debug)]
pub struct ApiResponse {
    pub service_delivery: ServiceDelivery,
}

/// What the feed delivers.
#[derive(Debug)]
pub struct ServiceDelivery {
    pub stop_monitoring_delivery: StopMonitoringDelivery,
}

/// The visits that the feed expects.
#[derive(Debug)]
pub struct StopMonitoringDelivery {
    pub monitored_stop_visit: Vec<MonitoredStopVisit>,
}

/// One vehicle's expected visit to one stop point.
#[derive(Debug)]
pub struct MonitoredStopVisit {
    pub monitored_vehicle_journey: MonitoredVehicleJourney,
}

/// The vehicle of a visit and its call at the stop point.
#[derive(Debug)]
pub struct MonitoredVehicleJourney {
    /// The vehicle's reference: the decimal number of the trip it runs.
    pub vehicle_ref: Option<String>,
    pub monitored_call: MonitoredCall,
}

/// A call at a stop point with its expected times.
#[derive(Debug)]
pub struct MonitoredCall {
    pub expected_arrival_time: Option<Timestamp>,
    pub expected_departure_time: Option<Timestamp>,
    /// The stop point's reference: the decimal number of a platform code.
    pub stop_point_ref: String,
}

/// The number of bytes that precede the JSON text in the feed's answer.
pub const FEED_PREFIX_LEN: usize = 3;

/// For how many seconds a list of overlays made from the feed is served.
pub const FRESH_SECONDS: u32 = 120;

/// For how many seconds the feed is left alone after it has limited the
/// rate of requests.
pub const COOL_DOWN_SECONDS: u32 = 60;

/// The status with which the feed limits the rate of requests.
pub const TOO_MANY_REQUESTS: u16 = 429;

/// The status with which the feed answers in full.
pub const OK: u16 = 200;

/// `stations[i]` is the first station that has the platform code `code`.
pub open spec fn is_first_with_code(stations: Seq<Station>, code: i64, i: int) -> bool {
    &&& 0 <= i < stations.len()
    &&& stations[i].stop_codes@.contains(code)
    &&& forall|j: int| 0 <= j < i ==> !(#[trigger] stations[j]).stop_codes@.contains(code)
}

/// The same instant, displayed at another offset.
pub open spec fn at_offset(time: Timestamp, offset: i32) -> Timestamp {
    Timestamp { seconds: time.seconds, nanos: time.nanos, offset }
}

/// The overlay that a visit of the feed gives, with its times displayed
/// at `offset`.
///
/// A visit gives an overlay if its vehicle reference is there and is a
/// number, its stop point reference is a number, a station has that
/// number among its platform codes, and both expected times are there.
/// The overlay names the first such station and no service.
pub open spec fn overlay_of(
    visit: MonitoredStopVisit,
    stations: Seq<Station>,
    offset: i32,
) -> Option<StopView> {
    let journey = visit.monitored_vehicle_journey;
    let call = journey.monitored_call;
    if journey.vehicle_ref is Some && i64_value(encode_utf8(journey.vehicle_ref.unwrap()@)) is Some
        && i64_value(encode_utf8(call.stop_point_ref@)) is Some && (exists|i: int|
        is_first_with_code(stations, i64_value(encode_utf8(call.stop_point_ref@)).unwrap(), i))
        && call.expected_arrival_time is Some && call.expected_departure_time is Some {
        let code = i64_value(encode_utf8(call.stop_point_ref@)).unwrap();
        let station = stations[choose|i: int| is_first_with_code(stations, code, i)];
        Some(
            StopView {
                station_id: station.station_id,
                trip_id: i64_value(encode_utf8(journey.vehicle_ref.unwrap()@)).unwrap(),
                station_name: station.name@,
                arrival: at_offset(call.expected_arrival_time.unwrap(), offset),
                departure: at_offset(call.expected_departure_time.unwrap(), offset),
                service_id: Seq::empty(),
            },
        )
    } else {
        None
    }
}

/// The overlay of each visit.
pub open spec fn overlay_at(stations: Seq<Station>, offset: i32) -> spec_fn(
    MonitoredStopVisit,
) -> Option<StopView> {
    |visit: MonitoredStopVisit| overlay_of(visit, stations, offset)
}

fn has_code(codes: &Vec<i64>, code: i64) -> (b: bool)
    ensures
        b == codes@.contains(code),
{
    let mut i: usize = 0;
    while i < codes.len()
        invariant
            i <= codes.len(),
            forall|j: int| 0 <= j < i ==> codes@[j] != code,
        decreases codes.len() - i,
    {
        if codes[i] == code {
            return true;
        }
        i += 1;
    }
    false
}

/// Finds the first station that has the platform code `code`.
fn station_with_code(stations: &Vec<Station>, code: i64) -> (res: Option<usize>)
    ensures
        res is Some <==> exists|i: int| is_first_with_code(stations@, code, i),
        res matches Some(i) ==> is_first_with_code(stations@, code, i as int),
{
    let mut i: usize = 0;
    while i < stations.len()
        invariant
            i <= stations.len(),
            forall|j: int| 0 <= j < i ==> !(#[trigger] stations@[j]).stop_codes@.contains(code),
        decreases stations.len() - i,
    {
        if has_code(&stations[i].stop_codes, code) {
            assert(is_first_with_code(stations@, code, i as int));
            return Some(i);
        }
        i += 1;
    }
    None
}

/// Makes the overlay of one visit of the feed, with its times displayed
/// at `local_offset` (seconds east of UTC). A visit that lacks a part, or
/// that no station matches, gives none.
pub fn try_find_stop(
    visit: &MonitoredStopVisit,
    stations: &Vec<Station>,
    local_offset: i32,
) -> (res: Option<Stop>)
    ensures
        res is Some <==> overlay_of(*visit, stations@, local_offset) is Some,
        res matches Some(stop) ==> Some(stop@) == overlay_of(*visit, stations@, local_offset),
{
    let journey = &visit.monitored_vehicle_journey;
    let call = &journey.monitored_call;
    let trip_id = match &journey.vehicle_ref {
        Some(vehicle_ref) => match parse_i64(vehicle_ref.as_str().as_bytes()) {
            Some(n) => n,
            None => {
                return None;
            },
        },
        None => {
            return None;
        },
    };
    let code = match parse_i64(call.stop_point_ref.as_str().as_bytes()) {
        Some(n) => n,
        None => {
            return None;
        },
    };
    let station = match station_with_code(stations, code) {
        Some(i) => &stations[i],
        None => {
            return None;
        },
    };
    let arrival = match call.expected_arrival_time {
        Some(t) => t,
        None => {
            return None;
        },
    };
    let departure = match call.expected_departure_time {
        Some(t) => t,
        None => {
            return None;
        },
    };
    Some(
        Stop {
            service_id: String::new(),
            station_name: station.name.clone(),
            station_id: station.station_id,
            trip_id,
            arrival: Timestamp {
                seconds: arrival.seconds,
                nanos: arrival.nanos,
                offset: local_offset,
            },
            departure: Timestamp {
                seconds: departure.seconds,
                nanos: departure.nanos,
                offset: local_offset,
            },
        },
    )
}

/// The overlays that the visits of the feed give, in the order of the
/// visits; a visit that gives none is passed over.
pub fn merge(
    visits: &Vec<MonitoredStopVisit>,
    stations: &Vec<Station>,
    local_offset: i32,
) -> (res: Vec<Stop>)
    ensures
        res@.map_values(crate::model::stop_view()) == visits@.filter_map(
            overlay_at(stations@, local_offset),
        ),
{
    let ghost f = overlay_at(stations@, local_offset);
    let ghost view = crate::model::stop_view();
    let mut res: Vec<Stop> = Vec::new();
    let mut i: usize = 0;
    proof {
        assert(visits@.take(0) == Seq::<MonitoredStopVisit>::empty());
        assert(res@.map_values(view) == visits@.take(0).filter_map(f));
    }
    while i < visits.len()
        invariant
            i <= visits.len(),
            f == overlay_at(stations@, local_offset),
            view == crate::model::stop_view(),
            res@.map_values(view) == visits@.take(i as int).filter_map(f),
        decreases visits.len() - i,
    {
        let ghost before = res@;
        proof {
            visits@.lemma_filter_map_take_succ(f, i as int);
        }
        match try_find_stop(&visits[i], stations, local_offset) {
            Some(stop) => {
                res.push(stop);
                assert(before.push(stop).map_values(view) == before.map_values(view) + seq![
                    stop@,
                ]);
            },
            None => {
                assert(before.map_values(view) + Seq::<StopView>::empty() == before.map_values(
                    view,
                ));
            },
        }
        i += 1;
    }
    assert(visits@.take(i as int) == visits@);
    res
}

} // verus!
