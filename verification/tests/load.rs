use train_schedules::load::{
    all_stations, all_stops, days_later, parse_time, service_from_row, services, stop_from_row,
    time_of_day, weekdays_from_row, CalendarRow, LoadError, StationRow, StopRow, TimeField,
    TimeOfDay,
};
use train_schedules::model::{Station, Stop};
use train_schedules::time::{Date, Timestamp, Weekday};

// 2024-01-03T00:00:00Z
const JAN_3: i64 = 1_704_240_000;
// 2024-07-01T00:00:00Z
const JUL_1: i64 = 1_719_792_000;

fn utc(seconds: i64) -> Timestamp {
    Timestamp { seconds, nanos: 0, offset: 0 }
}

fn date(year: i32, month: u32, day: u32) -> Date {
    Date::from_ymd(year, month, day).unwrap()
}

fn calendar_row(id: &str, start: i64, end: i64, flags: [i64; 7]) -> CalendarRow {
    CalendarRow {
        service_id: String::from(id),
        start_date: start,
        end_date: end,
        monday: flags[0],
        tuesday: flags[1],
        wednesday: flags[2],
        thursday: flags[3],
        friday: flags[4],
        saturday: flags[5],
        sunday: flags[6],
    }
}

fn stop_row(trip_id: i64, station_id: i64, arrival: &str, departure: &str) -> StopRow {
    StopRow {
        station_name: format!("station {}", station_id),
        station_id,
        departure_time: String::from(departure),
        arrival_time: String::from(arrival),
        trip_id,
        service_id: String::from("S1"),
    }
}

fn station_row(station_id: i64, name: &str, stop_code: i64) -> StationRow {
    StationRow { station_id, name: String::from(name), stop_code }
}

#[test]
fn a_time_of_day_is_read() {
    assert_eq!(time_of_day("08:05:09"), Ok(TimeOfDay { hour: 8, minute: 5, second: 9 }));
    assert_eq!(time_of_day("8:5:9"), Ok(TimeOfDay { hour: 8, minute: 5, second: 9 }));
    assert_eq!(time_of_day("25:10:00"), Ok(TimeOfDay { hour: 25, minute: 10, second: 0 }));
    assert_eq!(time_of_day("+1:+2:+3"), Ok(TimeOfDay { hour: 1, minute: 2, second: 3 }));
    assert_eq!(time_of_day("08:99:77"), Ok(TimeOfDay { hour: 8, minute: 99, second: 77 }));
}

#[test]
fn what_follows_the_seconds_is_not_read() {
    assert_eq!(time_of_day("08:05:09:junk"), Ok(TimeOfDay { hour: 8, minute: 5, second: 9 }));
    assert_eq!(time_of_day("08:05:09:"), Ok(TimeOfDay { hour: 8, minute: 5, second: 9 }));
    assert_eq!(time_of_day("08:05:09:é"), Ok(TimeOfDay { hour: 8, minute: 5, second: 9 }));
}

#[test]
fn a_time_of_day_that_lacks_a_part_is_refused() {
    assert_eq!(time_of_day("08"), Err(LoadError::MissingField(TimeField::Minute)));
    assert_eq!(time_of_day("08:05"), Err(LoadError::MissingField(TimeField::Second)));
}

#[test]
fn a_time_of_day_with_a_part_that_is_no_number_is_refused() {
    assert_eq!(time_of_day(""), Err(LoadError::InvalidField(TimeField::Hour)));
    assert_eq!(time_of_day(":05:09"), Err(LoadError::InvalidField(TimeField::Hour)));
    assert_eq!(time_of_day("xx:05:09"), Err(LoadError::InvalidField(TimeField::Hour)));
    assert_eq!(time_of_day("-1:05:09"), Err(LoadError::InvalidField(TimeField::Hour)));
    assert_eq!(time_of_day("4294967296:05:09"), Err(LoadError::InvalidField(TimeField::Hour)));
    assert_eq!(time_of_day("08:"), Err(LoadError::InvalidField(TimeField::Minute)));
    assert_eq!(time_of_day("08::09"), Err(LoadError::InvalidField(TimeField::Minute)));
    assert_eq!(time_of_day("08:0 5:09"), Err(LoadError::InvalidField(TimeField::Minute)));
    assert_eq!(time_of_day("08:05:"), Err(LoadError::InvalidField(TimeField::Second)));
    assert_eq!(time_of_day("08:05:09 "), Err(LoadError::InvalidField(TimeField::Second)));
    assert_eq!(time_of_day("08:05:9.5"), Err(LoadError::InvalidField(TimeField::Second)));
    // the hour is looked at first
    assert_eq!(time_of_day("xx"), Err(LoadError::InvalidField(TimeField::Hour)));
    assert_eq!(time_of_day("xx:yy"), Err(LoadError::InvalidField(TimeField::Hour)));
    assert_eq!(time_of_day("08:yy"), Err(LoadError::InvalidField(TimeField::Minute)));
}

#[test]
fn whole_days_are_added_for_hours_past_midnight() {
    assert_eq!(days_later(Some(utc(1_000)), 0), Ok(utc(1_000)));
    assert_eq!(days_later(Some(utc(1_000)), 23), Ok(utc(1_000)));
    assert_eq!(days_later(Some(utc(1_000)), 24), Ok(utc(87_400)));
    assert_eq!(days_later(Some(utc(1_000)), 47), Ok(utc(87_400)));
    assert_eq!(days_later(Some(utc(1_000)), 48), Ok(utc(173_800)));
    assert_eq!(days_later(Some(utc(-86_400)), 24), Ok(utc(0)));
    assert_eq!(days_later(None, 24), Err(LoadError::NoSuchTime));
    assert_eq!(days_later(Some(utc(i64::MAX)), 24), Err(LoadError::NoSuchTime));
    assert_eq!(days_later(Some(utc(i64::MAX)), 23), Ok(utc(i64::MAX)));
    assert_eq!(
        days_later(Some(Timestamp { seconds: 5, nanos: 7, offset: 9 }), 24),
        Ok(utc(86_405))
    );
}

#[test]
fn a_time_is_read_on_pacific_clocks() {
    // winter: eight hours behind UTC
    assert_eq!(parse_time("08:00:00", &date(2024, 1, 3)), Ok(utc(JAN_3 + 16 * 3600)));
    assert_eq!(parse_time("00:00:00", &date(2024, 1, 3)), Ok(utc(JAN_3 + 8 * 3600)));
    // summer: seven hours behind UTC
    assert_eq!(parse_time("08:00:00", &date(2024, 7, 1)), Ok(utc(JUL_1 + 15 * 3600)));
    assert_eq!(parse_time("23:59:59", &date(2024, 7, 1)), Ok(utc(JUL_1 + 31 * 3600 - 1)));
}

#[test]
fn an_hour_past_23_is_on_a_later_day() {
    assert_eq!(
        parse_time("25:10:00", &date(2024, 1, 3)),
        Ok(utc(JAN_3 + 86_400 + 9 * 3600 + 600))
    );
    assert_eq!(parse_time("24:00:00", &date(2024, 1, 3)), Ok(utc(JAN_3 + 86_400 + 8 * 3600)));
    assert_eq!(
        parse_time("48:00:01", &date(2024, 1, 3)),
        Ok(utc(JAN_3 + 2 * 86_400 + 8 * 3600 + 1))
    );
}

#[test]
fn a_time_that_the_clocks_do_not_show_once_is_refused() {
    // clocks go from 02:00 to 03:00
    assert_eq!(parse_time("02:30:00", &date(2024, 3, 10)), Err(LoadError::NoSuchTime));
    assert!(parse_time("03:30:00", &date(2024, 3, 10)).is_ok());
    // clocks show 01:30 twice
    assert_eq!(parse_time("01:30:00", &date(2024, 11, 3)), Err(LoadError::NoSuchTime));
    // no minute 60, no second 60
    assert_eq!(parse_time("08:60:00", &date(2024, 1, 3)), Err(LoadError::NoSuchTime));
    assert_eq!(parse_time("08:00:60", &date(2024, 1, 3)), Err(LoadError::NoSuchTime));
    // an hour past 23 falls back on the skipped hour of the day
    assert_eq!(parse_time("26:30:00", &date(2024, 3, 10)), Err(LoadError::NoSuchTime));
}

#[test]
fn a_time_that_cannot_be_read_is_refused() {
    assert_eq!(
        parse_time("8 o'clock", &date(2024, 1, 3)),
        Err(LoadError::InvalidField(TimeField::Hour))
    );
    assert_eq!(
        parse_time("08:00", &date(2024, 1, 3)),
        Err(LoadError::MissingField(TimeField::Second))
    );
}

#[test]
fn a_row_becomes_a_stop() {
    let row = stop_row(100, 1, "07:58:00", "08:00:00");
    assert_eq!(
        stop_from_row(&row, &date(2024, 1, 3)),
        Ok(Stop {
            station_id: 1,
            trip_id: 100,
            station_name: String::from("station 1"),
            arrival: utc(JAN_3 + 16 * 3600 - 120),
            departure: utc(JAN_3 + 16 * 3600),
            service_id: String::from("S1"),
        })
    );
}

#[test]
fn the_stops_follow_the_rows() {
    let rows = vec![
        stop_row(100, 1, "08:00:00", "08:00:00"),
        stop_row(100, 2, "08:30:00", "08:31:00"),
        stop_row(200, 1, "24:10:00", "24:12:00"),
    ];
    let stops = all_stops(&rows, &date(2024, 1, 3)).unwrap();
    assert_eq!(stops.len(), 3);
    assert_eq!(stops[1].arrival, utc(JAN_3 + 16 * 3600 + 1800));
    assert_eq!(stops[1].departure, utc(JAN_3 + 16 * 3600 + 1860));
    assert_eq!(stops[2].trip_id, 200);
    assert_eq!(stops[2].departure, utc(JAN_3 + 86_400 + 8 * 3600 + 720));
    assert_eq!(all_stops(&Vec::new(), &date(2024, 1, 3)), Ok(Vec::new()));
}

#[test]
fn the_first_bad_row_fails_the_load() {
    let rows = vec![
        stop_row(100, 1, "08:00:00", "08:00:00"),
        stop_row(100, 2, "08:30", "08:31:xx"),
        stop_row(200, 1, "", ""),
    ];
    // the departure is read before the arrival
    assert_eq!(
        all_stops(&rows, &date(2024, 1, 3)),
        Err(LoadError::InvalidField(TimeField::Second))
    );
    let rows = vec![stop_row(100, 2, "08:30", "08:31:00")];
    assert_eq!(
        all_stops(&rows, &date(2024, 1, 3)),
        Err(LoadError::MissingField(TimeField::Second))
    );
}

#[test]
fn the_weekdays_of_a_row_are_those_flagged_with_one() {
    let row = calendar_row("S1", 20240101, 20240131, [1, 0, 1, 0, 0, 0, 0]);
    assert_eq!(weekdays_from_row(&row), vec![Weekday::Mon, Weekday::Wed]);
    let row = calendar_row("S1", 20240101, 20240131, [0, 2, -1, 0, 0, 1, 1]);
    assert_eq!(weekdays_from_row(&row), vec![Weekday::Sat, Weekday::Sun]);
    let row = calendar_row("S1", 20240101, 20240131, [1; 7]);
    assert_eq!(
        weekdays_from_row(&row),
        vec![
            Weekday::Mon,
            Weekday::Tue,
            Weekday::Wed,
            Weekday::Thu,
            Weekday::Fri,
            Weekday::Sat,
            Weekday::Sun
        ]
    );
    let row = calendar_row("S1", 20240101, 20240131, [0; 7]);
    assert!(weekdays_from_row(&row).is_empty());
}

#[test]
fn a_row_becomes_a_service() {
    let row = calendar_row("S1", 20240101, 20240131, [1, 0, 1, 0, 0, 0, 0]);
    let service = service_from_row(&row).unwrap();
    assert_eq!(service.id, "S1");
    assert_eq!(service.start_date, date(2024, 1, 1));
    assert_eq!(service.end_date, date(2024, 1, 31));
    assert_eq!(service.weekdays, vec![Weekday::Mon, Weekday::Wed]);
}

#[test]
fn a_row_with_a_date_off_the_calendar_fails_the_load() {
    let rows = vec![
        calendar_row("S1", 20240101, 20240131, [1; 7]),
        calendar_row("S2", 20240101, 20240230, [1; 7]),
        calendar_row("S3", 20241301, 20240230, [1; 7]),
    ];
    assert_eq!(services(&rows), Err(LoadError::InvalidDate(20240230)));
    let rows = vec![calendar_row("S3", 20241301, 20240230, [1; 7])];
    assert_eq!(services(&rows), Err(LoadError::InvalidDate(20241301)));
    let rows = vec![calendar_row("S3", -5, 20240131, [1; 7])];
    assert_eq!(services(&rows), Err(LoadError::InvalidDate(-5)));
}

#[test]
fn the_services_follow_the_rows() {
    let rows = vec![
        calendar_row("S1", 20240101, 20240131, [1, 1, 1, 1, 1, 0, 0]),
        calendar_row("S2", 20240201, 20240229, [0, 0, 0, 0, 0, 1, 1]),
    ];
    let list = services(&rows).unwrap();
    assert_eq!(list.len(), 2);
    assert_eq!(list[0].id, "S1");
    assert_eq!(list[1].id, "S2");
    assert_eq!(list[1].end_date, date(2024, 2, 29));
    assert_eq!(list[1].weekdays, vec![Weekday::Sat, Weekday::Sun]);
    assert_eq!(services(&Vec::new()), Ok(Vec::new()));
}

#[test]
fn platforms_are_gathered_into_stations() {
    let rows = vec![
        station_row(1, "A", 70011),
        station_row(2, "B", 70021),
        station_row(1, "A, other platform", 70012),
        station_row(3, "C", 70031),
        station_row(2, "B", 70022),
        station_row(1, "A", 70011),
    ];
    assert_eq!(
        all_stations(&rows),
        vec![
            Station {
                name: String::from("A"),
                station_id: 1,
                stop_codes: vec![70011, 70012, 70011]
            },
            Station { name: String::from("B"), station_id: 2, stop_codes: vec![70021, 70022] },
            Station { name: String::from("C"), station_id: 3, stop_codes: vec![70031] },
        ]
    );
    assert!(all_stations(&Vec::new()).is_empty());
}
