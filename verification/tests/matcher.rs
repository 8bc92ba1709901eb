use train_schedules::matcher::{upcoming_at_station, is_listed, twostops};
use train_schedules::model::{Stop, TwoStop};
use train_schedules::time::Timestamp;

// 2024-01-03T00:00:00Z
const MIDNIGHT: i64 = 1_704_240_000;

fn at(hour: i64, minute: i64) -> Timestamp {
    Timestamp { seconds: MIDNIGHT + hour * 3600 + minute * 60, nanos: 0, offset: 0 }
}

fn stop(trip_id: i64, station_id: i64, arrival: Timestamp, departure: Timestamp) -> Stop {
    Stop {
        station_id,
        trip_id,
        station_name: format!("station {}", station_id),
        arrival,
        departure,
        service_id: String::from("S1"),
    }
}

fn s1() -> Vec<String> {
    vec![String::from("S1")]
}

fn trip_ids(legs: &[TwoStop]) -> Vec<i64> {
    legs.iter().map(|leg| leg.trip_id).collect()
}

#[test]
fn one_trip_between_two_stations_before_and_after_it_leaves() {
    let stops = vec![
        stop(100, 1, at(8, 0), at(8, 0)),
        stop(100, 2, at(8, 30), at(8, 30)),
    ];
    let legs = twostops(&stops, 1, 2, &s1(), &at(7, 0));
    assert_eq!(
        legs,
        vec![TwoStop { trip_id: 100, start: stops[0].clone(), end: stops[1].clone() }]
    );
    assert_eq!(legs[0].start.departure, at(8, 0));
    assert_eq!(legs[0].end.arrival, at(8, 30));
    assert!(twostops(&stops, 1, 2, &s1(), &at(8, 5)).is_empty());
}

#[test]
fn a_leg_that_leaves_just_now_is_kept() {
    let stops = vec![
        stop(100, 1, at(8, 0), at(8, 0)),
        stop(100, 2, at(8, 30), at(8, 30)),
    ];
    assert_eq!(twostops(&stops, 1, 2, &s1(), &at(8, 0)).len(), 1);
    let just_after = Timestamp { seconds: at(8, 0).seconds, nanos: 1, offset: 0 };
    assert!(twostops(&stops, 1, 2, &s1(), &just_after).is_empty());
}

#[test]
fn a_trip_in_the_other_direction_gives_no_leg() {
    // the train is at the second station before it reaches the first
    let stops = vec![
        stop(100, 1, at(10, 5), at(10, 6)),
        stop(100, 2, at(9, 59), at(10, 0)),
    ];
    assert!(twostops(&stops, 1, 2, &s1(), &at(7, 0)).is_empty());
    // the other way round the trip is a leg
    assert_eq!(trip_ids(&twostops(&stops, 2, 1, &s1(), &at(7, 0))), vec![100]);
}

#[test]
fn a_leg_whose_ends_meet_is_kept() {
    // arrival at the first station and departure from the second coincide
    let stops = vec![
        stop(100, 1, at(10, 0), at(10, 0)),
        stop(100, 2, at(10, 0), at(10, 0)),
    ];
    assert_eq!(trip_ids(&twostops(&stops, 1, 2, &s1(), &at(7, 0))), vec![100]);
}

#[test]
fn a_leg_whose_train_has_arrived_is_dropped() {
    // departure still ahead, arrival behind: only the second filter drops it
    let stops = vec![
        stop(100, 1, at(7, 0), at(9, 0)),
        stop(100, 2, at(8, 0), at(9, 30)),
    ];
    assert!(twostops(&stops, 1, 2, &s1(), &at(8, 30)).is_empty());
    assert_eq!(twostops(&stops, 1, 2, &s1(), &at(8, 0)).len(), 1);
}

#[test]
fn legs_are_sorted_and_ties_keep_schedule_order() {
    let stops = vec![
        stop(300, 1, at(9, 0), at(9, 0)),
        stop(300, 2, at(9, 30), at(9, 30)),
        stop(100, 1, at(8, 0), at(8, 0)),
        stop(100, 2, at(8, 30), at(8, 30)),
        stop(400, 1, at(8, 0), at(8, 0)),
        stop(400, 2, at(8, 40), at(8, 40)),
        stop(200, 1, at(8, 0), at(8, 0)),
        stop(200, 2, at(8, 20), at(8, 20)),
        stop(500, 1, at(7, 30), at(7, 30)),
        stop(500, 2, at(8, 0), at(8, 0)),
    ];
    let legs = twostops(&stops, 1, 2, &s1(), &at(7, 0));
    // ascending by departure; equal departures in schedule order
    assert_eq!(trip_ids(&legs), vec![500, 100, 400, 200, 300]);
    for pair in legs.windows(2) {
        assert!(!pair[1].start.departure.is_before(&pair[0].start.departure));
    }
    // the same input gives the same list
    assert_eq!(twostops(&stops, 1, 2, &s1(), &at(7, 0)), legs);
}

#[test]
fn the_display_offset_does_not_order() {
    let east = Timestamp { seconds: at(8, 0).seconds, nanos: 0, offset: 3600 };
    let west = Timestamp { seconds: at(8, 0).seconds - 60, nanos: 0, offset: -28800 };
    assert!(west.is_before(&east));
    assert!(east.is_after(&west));
    assert!(!east.is_before(&east));
    let half = Timestamp { seconds: at(8, 0).seconds, nanos: 500_000_000, offset: 0 };
    assert!(east.is_before(&half));
    assert!(!half.is_before(&east));
}

#[test]
fn a_trip_that_visits_a_station_twice_is_dropped() {
    let stops = vec![
        stop(100, 1, at(8, 0), at(8, 0)),
        stop(100, 2, at(8, 30), at(8, 30)),
        stop(100, 1, at(9, 0), at(9, 0)),
        stop(200, 1, at(8, 10), at(8, 10)),
        stop(200, 2, at(8, 40), at(8, 40)),
        stop(200, 2, at(9, 40), at(9, 40)),
        stop(300, 1, at(8, 20), at(8, 20)),
        stop(300, 2, at(8, 50), at(8, 50)),
    ];
    assert_eq!(trip_ids(&twostops(&stops, 1, 2, &s1(), &at(7, 0))), vec![300]);
}

#[test]
fn a_trip_that_misses_a_station_is_dropped() {
    let stops = vec![
        stop(100, 1, at(8, 0), at(8, 0)),
        stop(200, 2, at(8, 40), at(8, 40)),
        stop(300, 1, at(8, 20), at(8, 20)),
        stop(300, 3, at(8, 50), at(8, 50)),
    ];
    assert!(twostops(&stops, 1, 2, &s1(), &at(7, 0)).is_empty());
}

#[test]
fn a_stop_of_an_inactive_service_does_not_count() {
    let mut other = stop(100, 2, at(8, 30), at(8, 30));
    other.service_id = String::from("S2");
    let stops = vec![stop(100, 1, at(8, 0), at(8, 0)), other];
    assert!(twostops(&stops, 1, 2, &s1(), &at(7, 0)).is_empty());
    let both = vec![String::from("S1"), String::from("S2")];
    assert_eq!(trip_ids(&twostops(&stops, 1, 2, &both, &at(7, 0))), vec![100]);
    // a duplicate under an inactive service does not make the visit ambiguous
    let mut twice = stop(100, 1, at(8, 5), at(8, 5));
    twice.service_id = String::from("S3");
    let stops = vec![
        stop(100, 1, at(8, 0), at(8, 0)),
        twice,
        stop(100, 2, at(8, 30), at(8, 30)),
    ];
    assert_eq!(trip_ids(&twostops(&stops, 1, 2, &s1(), &at(7, 0))), vec![100]);
}

#[test]
fn unknown_stations_give_no_legs() {
    let stops = vec![
        stop(100, 1, at(8, 0), at(8, 0)),
        stop(100, 2, at(8, 30), at(8, 30)),
    ];
    assert!(twostops(&stops, 7, 2, &s1(), &at(7, 0)).is_empty());
    assert!(twostops(&stops, 1, 7, &s1(), &at(7, 0)).is_empty());
    assert!(twostops(&Vec::new(), 1, 2, &s1(), &at(7, 0)).is_empty());
    assert!(twostops(&stops, 1, 2, &Vec::new(), &at(7, 0)).is_empty());
}

#[test]
fn upcoming_departures_are_sorted_and_filtered() {
    let mut inactive = stop(600, 1, at(8, 15), at(8, 15));
    inactive.service_id = String::from("S2");
    let stops = vec![
        stop(300, 1, at(9, 0), at(9, 0)),
        stop(100, 1, at(8, 0), at(8, 0)),
        stop(100, 2, at(8, 30), at(8, 30)),
        stop(400, 1, at(8, 0), at(8, 0)),
        stop(500, 1, at(6, 30), at(6, 30)),
        stop(700, 1, at(7, 0), at(7, 0)),
        inactive,
    ];
    let upcoming = upcoming_at_station(&stops, 1, &s1(), &at(7, 0));
    let ids: Vec<i64> = upcoming.iter().map(|s| s.trip_id).collect();
    // strictly after now, ascending, ties in schedule order
    assert_eq!(ids, vec![100, 400, 300]);
    assert_eq!(upcoming[0], stops[1]);
    assert!(upcoming_at_station(&stops, 9, &s1(), &at(7, 0)).is_empty());
    assert!(upcoming_at_station(&stops, 1, &Vec::new(), &at(7, 0)).is_empty());
    assert_eq!(upcoming_at_station(&stops, 1, &s1(), &at(7, 0)), upcoming);
}

#[test]
fn a_service_is_looked_up_by_its_text() {
    let services = vec![String::from("S1"), String::from("S2")];
    assert!(is_listed(&services, &String::from("S2")));
    assert!(!is_listed(&services, &String::from("S")));
    assert!(!is_listed(&Vec::new(), &String::from("S1")));
}
