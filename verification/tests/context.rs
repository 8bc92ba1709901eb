use train_schedules::context::{host, state_changed, Context};
use train_schedules::model::{Station, Stop, TwoStop, TwoStopList};
use train_schedules::time::{time_str, Date, Timestamp};

#[test]
fn the_host_is_handed_out() {
    let context = Context { host: String::from("https://trains.example") };
    assert_eq!(host(&context), "https://trains.example");
    assert_eq!(context.clone(), context);
}

#[test]
fn a_state_that_differs_is_replaced() {
    let mut state = Some(3);
    assert!(state_changed(&mut state, Some(4)));
    assert_eq!(state, Some(4));
    assert!(state_changed(&mut state, None));
    assert_eq!(state, None);
}

#[test]
fn a_state_that_is_the_same_is_kept() {
    let mut state = String::from("A");
    assert!(!state_changed(&mut state, String::from("A")));
    assert_eq!(state, "A");
    let mut number = 7;
    assert!(!state_changed(&mut number, 7));
    assert_eq!(number, 7);
}

#[test]
fn minutes_are_written_as_hours_and_minutes() {
    assert_eq!(time_str(0), "00:00");
    assert_eq!(time_str(5), "00:05");
    assert_eq!(time_str(60), "01:00");
    assert_eq!(time_str(125), "02:05");
    assert_eq!(time_str(23 * 60 + 59), "23:59");
    assert_eq!(time_str(24 * 60), "24:00");
    assert_eq!(time_str(6000), "100:00");
    assert_eq!(time_str(-5), "00:-5");
    assert_eq!(time_str(-61), "-1:-1");
    assert_eq!(time_str(-725), "-12:-5");
    assert_eq!(time_str(i64::MAX), "153722867280912930:07");
    assert_eq!(time_str(i64::MIN), "-153722867280912930:-8");
}

#[test]
fn a_date_gives_its_instant_on_pacific_clocks() {
    let date = Date::from_ymd(2024, 1, 3).unwrap();
    assert_eq!(
        date.at_pacific(8, 0, 0),
        Some(Timestamp { seconds: 1_704_297_600, nanos: 0, offset: 0 })
    );
    assert_eq!(date.at_pacific(24, 0, 0), None);
    assert_eq!(date.at_pacific(8, 60, 0), None);
    let spring = Date::from_ymd(2024, 3, 10).unwrap();
    assert_eq!(spring.at_pacific(2, 30, 0), None);
}

#[test]
fn copies_are_equal_to_what_they_copy() {
    let at = Timestamp { seconds: 5, nanos: 6, offset: 7 };
    let stop = Stop {
        station_id: 1,
        trip_id: 100,
        station_name: String::from("A"),
        arrival: at,
        departure: at,
        service_id: String::from("S1"),
    };
    assert_eq!(stop.clone(), stop);
    let leg = TwoStop { trip_id: 100, start: stop.clone(), end: stop.clone() };
    assert_eq!(leg.clone(), leg);
    let station = Station { name: String::from("A"), station_id: 1, stop_codes: vec![3, 1, 2] };
    assert_eq!(station.clone(), station);
    assert_eq!(train_schedules::model::clone_stops(&vec![stop.clone()]), vec![stop]);
}

#[test]
fn the_default_list_is_empty() {
    let list = TwoStopList::default();
    assert_eq!(list.start, Station { name: String::new(), station_id: 0, stop_codes: vec![] });
    assert_eq!(list.end, Station::default());
    assert!(list.trips.is_empty());
}
