use train_schedules::calendar::Service;
use train_schedules::model::{Station, Stop, Trip, TwoStop, TwoStopList};
use train_schedules::query::{
    get_twostops, get_upcoming, station, stations, trip, upcoming_trips, Error, State, TripQuery,
    UpcomingTrips, UpcomingTripsQuery,
};
use train_schedules::time::{Date, Timestamp, Weekday};

// 2024-01-03T00:00:00Z
const MIDNIGHT: i64 = 1_704_240_000;

fn at(hour: i64, minute: i64) -> Timestamp {
    Timestamp { seconds: MIDNIGHT + hour * 3600 + minute * 60, nanos: 0, offset: 0 }
}

fn date(year: i32, month: u32, day: u32) -> Date {
    Date::from_ymd(year, month, day).unwrap()
}

fn stop(trip_id: i64, station_id: i64, service: &str, time: Timestamp) -> Stop {
    Stop {
        station_id,
        trip_id,
        station_name: if station_id == 1 { String::from("A") } else { String::from("B") },
        arrival: time,
        departure: time,
        service_id: String::from(service),
    }
}

fn state() -> State {
    State {
        stations: vec![
            Station { name: String::from("A"), station_id: 1, stop_codes: vec![70011] },
            Station { name: String::from("B"), station_id: 2, stop_codes: vec![70021] },
            Station { name: String::from("A, second entry"), station_id: 1, stop_codes: vec![] },
        ],
        stops: vec![
            stop(200, 1, "weekday", at(9, 0)),
            stop(200, 2, "weekday", at(9, 30)),
            stop(100, 1, "weekday", at(8, 0)),
            stop(100, 2, "weekday", at(8, 30)),
            stop(900, 1, "weekend", at(8, 15)),
            stop(900, 2, "weekend", at(8, 45)),
        ],
        services: vec![
            Service {
                start_date: date(2024, 1, 1),
                end_date: date(2024, 12, 31),
                id: String::from("weekday"),
                weekdays: vec![
                    Weekday::Mon,
                    Weekday::Tue,
                    Weekday::Wed,
                    Weekday::Thu,
                    Weekday::Fri,
                ],
            },
            Service {
                start_date: date(2024, 1, 1),
                end_date: date(2024, 12, 31),
                id: String::from("weekend"),
                weekdays: vec![Weekday::Sat, Weekday::Sun],
            },
        ],
    }
}

#[test]
fn a_station_is_found_by_its_identifier() {
    let data = state();
    assert_eq!(station(2, &data.stations), Ok(data.stations[1].clone()));
    // the first of two with the same identifier
    assert_eq!(station(1, &data.stations).unwrap().name, "A");
    assert_eq!(station(7, &data.stations), Err(Error::NoSuchStation(7)));
    assert_eq!(station(1, &Vec::new()), Err(Error::NoSuchStation(1)));
}

#[test]
fn the_stations_are_listed() {
    let data = state();
    assert_eq!(stations(&data), data.stations);
}

#[test]
fn an_error_maps_to_a_status() {
    assert!(Error::NoSuchStation(7).is_not_found());
    assert_eq!(Error::NoSuchStation(7).status_code(), 404);
    assert!(!Error::UpstreamStatus(503).is_not_found());
    assert_eq!(Error::UpstreamStatus(503).status_code(), 500);
    assert_eq!(Error::MalformedBody.status_code(), 500);
}

#[test]
fn the_stops_of_a_trip_are_listed_in_schedule_order() {
    let data = state();
    assert_eq!(
        trip(&TripQuery { id: 100 }, &data),
        Trip { trip_id: 100, stops: vec![data.stops[2].clone(), data.stops[3].clone()] }
    );
    assert_eq!(trip(&TripQuery { id: 5 }, &data), Trip { trip_id: 5, stops: Vec::new() });
}

#[test]
fn departures_follow_the_calendar_of_the_day() {
    let data = state();
    // a Wednesday
    let ids: Vec<i64> = get_upcoming(&data, 1, &date(2024, 1, 3), &at(7, 0))
        .iter()
        .map(|s| s.trip_id)
        .collect();
    assert_eq!(ids, vec![100, 200]);
    // a Saturday
    let ids: Vec<i64> = get_upcoming(&data, 1, &date(2024, 1, 6), &at(7, 0))
        .iter()
        .map(|s| s.trip_id)
        .collect();
    assert_eq!(ids, vec![900]);
    // out of every range
    assert!(get_upcoming(&data, 1, &date(2025, 1, 1), &at(7, 0)).is_empty());
    assert!(get_upcoming(&data, 1, &date(2024, 1, 3), &at(9, 0)).is_empty());
}

#[test]
fn the_trips_between_two_stations_come_with_the_stations() {
    let data = state();
    let list = get_twostops(&data, 1, 2, &date(2024, 1, 3), &at(7, 0)).unwrap();
    assert_eq!(
        list,
        TwoStopList {
            start: data.stations[0].clone(),
            end: data.stations[1].clone(),
            trips: vec![
                TwoStop {
                    trip_id: 100,
                    start: data.stops[2].clone(),
                    end: data.stops[3].clone()
                },
                TwoStop {
                    trip_id: 200,
                    start: data.stops[0].clone(),
                    end: data.stops[1].clone()
                },
            ],
        }
    );
    let back = get_twostops(&data, 2, 1, &date(2024, 1, 3), &at(7, 0)).unwrap();
    assert_eq!(back.start, data.stations[1]);
    assert!(back.trips.is_empty());
}

#[test]
fn a_station_that_is_not_there_is_reported() {
    let data = state();
    let today = date(2024, 1, 3);
    assert_eq!(get_twostops(&data, 7, 2, &today, &at(7, 0)), Err(Error::NoSuchStation(7)));
    assert_eq!(get_twostops(&data, 1, 8, &today, &at(7, 0)), Err(Error::NoSuchStation(8)));
    assert_eq!(get_twostops(&data, 7, 8, &today, &at(7, 0)), Err(Error::NoSuchStation(7)));
}

#[test]
fn a_query_with_one_station_gives_departures() {
    let data = state();
    let today = date(2024, 1, 3);
    let query = UpcomingTripsQuery { start: 2, end: None };
    assert_eq!(
        upcoming_trips(&query, &data, &today, &at(7, 0)),
        Ok(UpcomingTrips::Departures(vec![data.stops[3].clone(), data.stops[1].clone()]))
    );
    let query = UpcomingTripsQuery { start: 7, end: None };
    assert_eq!(
        upcoming_trips(&query, &data, &today, &at(7, 0)),
        Err(Error::NoSuchStation(7))
    );
}

#[test]
fn a_query_with_two_stations_gives_legs() {
    let data = state();
    let today = date(2024, 1, 3);
    let query = UpcomingTripsQuery { start: 1, end: Some(2) };
    match upcoming_trips(&query, &data, &today, &at(8, 30)) {
        Ok(UpcomingTrips::Legs(list)) => {
            assert_eq!(list.start.name, "A");
            assert_eq!(list.end.name, "B");
            let ids: Vec<i64> = list.trips.iter().map(|leg| leg.trip_id).collect();
            assert_eq!(ids, vec![200]);
        }
        other => panic!("{:?}", other),
    }
    let query = UpcomingTripsQuery { start: 1, end: Some(9) };
    assert_eq!(
        upcoming_trips(&query, &data, &today, &at(7, 0)),
        Err(Error::NoSuchStation(9))
    );
}
