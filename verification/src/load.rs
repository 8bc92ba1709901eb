//! From the rows of the schedule's tables to the snapshot.

use crate::calendar::{Service, ServiceView};
use crate::model::{Station, StationView, Stop, StopView};
use crate::number::{parse_u32, u32_value};
use crate::time::{
    date_from_num, date_of_num, pacific_epoch_seconds, Date, DateView, Timestamp, Weekday,
};
use vstd::prelude::*;
use vstd::string::StringSliceAdditionalSpecFns;
use vstd::utf8::encode_utf8;

verus! {

/// The byte of `:`.
pub const COLON: u8 = 58;

/// The number of seconds of a day.
pub const DAY_SECONDS: i64 = 86_400;

/// A part of a time of day.
#[derive(Clone, Copy, Debug, PartialEq, Eq, Structural)]
pub enum TimeField {
    Hour,
    Minute,
    Second,
}

/// Why a row cannot be taken into the snapshot.
#[derive(Clone, Copy, Debug, PartialEq, Eq, Structural)]
pub enum LoadError {
    /// A time of day ends before this part of it.
    MissingField(TimeField),
    /// This part of a time of day is not a number.
    InvalidField(TimeField),
    /// The day has no such time, or has it twice, or the time lies beyond
    /// what a timestamp holds.
    NoSuchTime,
    /// The number does not write down a date of the calendar.
    InvalidDate(i64),
}

/// A time of day as the schedule writes it: the hour may run past 23 for
/// a stop after midnight of the day on which its trip began.
#[derive(Clone, Copy, Debug, PartialEq, Eq, Structural)]
pub struct TimeOfDay {
    pub hour: u32,
    pub minute: u32,
    pub second: u32,
}

/// Where the part that begins at `from` ends: at the next colon, or at
/// the end of `s`.
pub open spec fn field_end(s: Seq<u8>, from: int) -> int
    decreases s.len() - from,
{
    if from >= s.len() || s[from] == COLON {
        from
    } else {
        field_end(s, from + 1)
    }
}

/// The time of day that `s` writes down: hour, minute and second, as
/// numbers, with a colon between them. What follows a colon after the
/// second is not read.
pub open spec fn time_of_day_of(s: Seq<u8>) -> Result<TimeOfDay, LoadError> {
    let hour_end = field_end(s, 0);
    let minute_end = field_end(s, hour_end + 1);
    let second_end = field_end(s, minute_end + 1);
    let hour = u32_value(s.subrange(0, hour_end));
    let minute = u32_value(s.subrange(hour_end + 1, minute_end));
    let second = u32_value(s.subrange(minute_end + 1, second_end));
    if hour is None {
        Err(LoadError::InvalidField(TimeField::Hour))
    } else if hour_end >= s.len() {
        Err(LoadError::MissingField(TimeField::Minute))
    } else if minute is None {
        Err(LoadError::InvalidField(TimeField::Minute))
    } else if minute_end >= s.len() {
        Err(LoadError::MissingField(TimeField::Second))
    } else if second is None {
        Err(LoadError::InvalidField(TimeField::Second))
    } else {
        Ok(TimeOfDay { hour: hour.unwrap(), minute: minute.unwrap(), second: second.unwrap() })
    }
}

/// Finds the end of the part that begins at `from`.
fn find_field_end(bytes: &[u8], from: usize) -> (end: usize)
    requires
        from <= bytes@.len(),
    ensures
        end == field_end(bytes@, from as int),
        from <= end <= bytes@.len(),
{
    let mut i: usize = from;
    while i < bytes.len() && bytes[i] != COLON
        invariant
            from <= i <= bytes@.len(),
            field_end(bytes@, from as int) == field_end(bytes@, i as int),
        decreases bytes@.len() - i,
    {
        i += 1;
    }
    i
}

/// Reads a time of day.
pub fn time_of_day(time: &str) -> (res: Result<TimeOfDay, LoadError>)
    ensures
        res == time_of_day_of(time.spec_bytes()),
{
    let bytes = time.as_bytes();
    let hour_end = find_field_end(bytes, 0);
    let hour = match parse_u32(bytes, 0, hour_end) {
        Some(n) => n,
        None => {
            return Err(LoadError::InvalidField(TimeField::Hour));
        },
    };
    if hour_end >= bytes.len() {
        return Err(LoadError::MissingField(TimeField::Minute));
    }
    let minute_end = find_field_end(bytes, hour_end + 1);
    let minute = match parse_u32(bytes, hour_end + 1, minute_end) {
        Some(n) => n,
        None => {
            return Err(LoadError::InvalidField(TimeField::Minute));
        },
    };
    if minute_end >= bytes.len() {
        return Err(LoadError::MissingField(TimeField::Second));
    }
    let second_end = find_field_end(bytes, minute_end + 1);
    let second = match parse_u32(bytes, minute_end + 1, second_end) {
        Some(n) => n,
        None => {
            return Err(LoadError::InvalidField(TimeField::Second));
        },
    };
    Ok(TimeOfDay { hour, minute, second })
}

/// The instant that lies whole days after `base` seconds: one day for
/// every 24 hours of `hour`. None where `base` is none.
pub open spec fn days_later_of(base: Option<int>, hour: u32) -> Result<Timestamp, LoadError> {
    match base {
        Some(seconds) if i64::MIN <= seconds + (hour / 24) * DAY_SECONDS <= i64::MAX => Ok(
            Timestamp {
                seconds: (seconds + (hour / 24) * DAY_SECONDS) as i64,
                nanos: 0,
                offset: 0,
            },
        ),
        _ => Err(LoadError::NoSuchTime),
    }
}

/// Moves `base`, the instant of a time of day whose hour was taken
/// modulo 24, by the days that the hour `hour` holds.
pub fn days_later(base: Option<Timestamp>, hour: u32) -> (res: Result<Timestamp, LoadError>)
    ensures
        res == days_later_of(
            match base {
                Some(t) => Some(t.seconds as int),
                None => None,
            },
            hour,
        ),
{
    match base {
        Some(t) => {
            let at: i128 = t.seconds as i128 + (hour / 24) as i128 * DAY_SECONDS as i128;
            if at < i64::MIN as i128 || at > i64::MAX as i128 {
                Err(LoadError::NoSuchTime)
            } else {
                Ok(Timestamp { seconds: at as i64, nanos: 0, offset: 0 })
            }
        },
        None => Err(LoadError::NoSuchTime),
    }
}

/// The instant at which a trip that began on `day` is at the time of day
/// that `s` writes down, on the clocks of the `US/Pacific` zone.
pub open spec fn time_on(day: DateView, s: Seq<u8>) -> Result<Timestamp, LoadError> {
    match time_of_day_of(s) {
        Err(e) => Err(e),
        Ok(t) => days_later_of(
            pacific_epoch_seconds(
                day.year,
                day.month,
                day.day,
                (t.hour % 24) as int,
                t.minute as int,
                t.second as int,
            ),
            t.hour,
        ),
    }
}

/// Reads a time of day of the schedule as an instant of a trip that
/// began on `day`, displayed in UTC.
///
/// The hour is taken modulo 24 on `day`, in the `US/Pacific` zone, and
/// the instant lies one day later for every 24 hours that the hour holds.
pub fn parse_time(time: &str, day: &Date) -> (res: Result<Timestamp, LoadError>)
    ensures
        res == time_on(day@, time.spec_bytes()),
{
    match time_of_day(time) {
        Err(e) => Err(e),
        Ok(t) => days_later(day.at_pacific(t.hour % 24, t.minute, t.second), t.hour),
    }
}

/// A row of the table of stop times, joined with its trip and its stop.
#[derive(Debug)]
pub struct StopRow {
    pub station_name: String,
    pub station_id: i64,
    pub departure_time: String,
    pub arrival_time: String,
    pub trip_id: i64,
    pub service_id: String,
}

/// The stop that a row gives for trips that began on `day`. Both times
/// must read; the departure is read first.
pub open spec fn stop_of(row: StopRow, day: DateView) -> Result<StopView, LoadError> {
    match time_on(day, encode_utf8(row.departure_time@)) {
        Err(e) => Err(e),
        Ok(departure) => match time_on(day, encode_utf8(row.arrival_time@)) {
            Err(e) => Err(e),
            Ok(arrival) => Ok(
                StopView {
                    station_id: row.station_id,
                    trip_id: row.trip_id,
                    station_name: row.station_name@,
                    arrival,
                    departure,
                    service_id: row.service_id@,
                },
            ),
        },
    }
}

/// Makes the stop of one row.
pub fn stop_from_row(row: &StopRow, day: &Date) -> (res: Result<Stop, LoadError>)
    ensures
        res is Ok <==> stop_of(*row, day@) is Ok,
        res matches Ok(stop) ==> Ok::<StopView, LoadError>(stop@) == stop_of(*row, day@),
        res matches Err(e) ==> Err::<StopView, LoadError>(e) == stop_of(*row, day@),
{
    let departure = match parse_time(row.departure_time.as_str(), day) {
        Ok(t) => t,
        Err(e) => {
            return Err(e);
        },
    };
    let arrival = match parse_time(row.arrival_time.as_str(), day) {
        Ok(t) => t,
        Err(e) => {
            return Err(e);
        },
    };
    Ok(
        Stop {
            trip_id: row.trip_id,
            station_id: row.station_id,
            station_name: row.station_name.clone(),
            arrival,
            departure,
            service_id: row.service_id.clone(),
        },
    )
}

/// The scheduled stops of trips that begin on `day`, one for each row and
/// in the order of the rows. Fails with the error of the first row that
/// gives no stop.
pub fn all_stops(rows: &Vec<StopRow>, day: &Date) -> (res: Result<Vec<Stop>, LoadError>)
    ensures
        match res {
            Ok(stops) => {
                &&& stops.len() == rows.len()
                &&& forall|i: int|
                    0 <= i < rows.len() ==> Ok::<StopView, LoadError>((#[trigger] stops@[i])@)
                        == stop_of(rows@[i], day@)
            },
            Err(e) => exists|i: int|
                {
                    &&& 0 <= i < rows.len()
                    &&& #[trigger] stop_of(rows@[i], day@) == Err::<StopView, LoadError>(e)
                    &&& forall|j: int| 0 <= j < i ==> #[trigger] stop_of(rows@[j], day@) is Ok
                },
        },
{
    let mut stops: Vec<Stop> = Vec::new();
    let mut i: usize = 0;
    while i < rows.len()
        invariant
            i <= rows.len(),
            stops.len() == i,
            forall|j: int|
                0 <= j < i ==> Ok::<StopView, LoadError>((#[trigger] stops@[j])@) == stop_of(
                    rows@[j],
                    day@,
                ),
        decreases rows.len() - i,
    {
        match stop_from_row(&rows[i], day) {
            Ok(stop) => {
                stops.push(stop);
            },
            Err(e) => {
                assert(stop_of(rows@[i as int], day@) == Err::<StopView, LoadError>(e));
                assert forall|j: int| 0 <= j < i implies #[trigger] stop_of(rows@[j], day@)
                    is Ok by {
                    assert(Ok::<StopView, LoadError>(stops@[j]@) == stop_of(rows@[j], day@));
                }
                return Err(e);
            },
        }
        i += 1;
    }
    Ok(stops)
}

/// A row of the calendar: a service, the first and the last day on which
/// it runs, as numbers of the form `yyyymmdd`, and for each day of the
/// week a 1 if the service runs on it.
#[derive(Debug)]
pub struct CalendarRow {
    pub service_id: String,
    pub start_date: i64,
    pub end_date: i64,
    pub monday: i64,
    pub tuesday: i64,
    pub wednesday: i64,
    pub thursday: i64,
    pub friday: i64,
    pub saturday: i64,
    pub sunday: i64,
}

/// The day, if its flag is 1.
pub open spec fn day_if(flag: i64, day: Weekday) -> Seq<Weekday> {
    if flag == 1 {
        seq![day]
    } else {
        Seq::empty()
    }
}

/// The days whose flag is 1, from Monday to Sunday.
pub open spec fn weekdays_of(row: CalendarRow) -> Seq<Weekday> {
    day_if(row.monday, Weekday::Mon) + day_if(row.tuesday, Weekday::Tue) + day_if(
        row.wednesday,
        Weekday::Wed,
    ) + day_if(row.thursday, Weekday::Thu) + day_if(row.friday, Weekday::Fri) + day_if(
        row.saturday,
        Weekday::Sat,
    ) + day_if(row.sunday, Weekday::Sun)
}

/// Adds the day to `days` if its flag is 1.
fn push_if(days: &mut Vec<Weekday>, flag: i64, day: Weekday)
    ensures
        final(days)@ == old(days)@ + day_if(flag, day),
{
    if flag == 1 {
        days.push(day);
        assert(days@ == old(days)@ + seq![day]);
    } else {
        assert(days@ == old(days)@ + Seq::<Weekday>::empty());
    }
}

/// The days of the week on which the service of a row runs.
pub fn weekdays_from_row(row: &CalendarRow) -> (res: Vec<Weekday>)
    ensures
        res@ == weekdays_of(*row),
{
    let mut weekdays: Vec<Weekday> = Vec::new();
    push_if(&mut weekdays, row.monday, Weekday::Mon);
    assert(weekdays@ == day_if(row.monday, Weekday::Mon));
    push_if(&mut weekdays, row.tuesday, Weekday::Tue);
    push_if(&mut weekdays, row.wednesday, Weekday::Wed);
    push_if(&mut weekdays, row.thursday, Weekday::Thu);
    push_if(&mut weekdays, row.friday, Weekday::Fri);
    push_if(&mut weekdays, row.saturday, Weekday::Sat);
    push_if(&mut weekdays, row.sunday, Weekday::Sun);
    weekdays
}

/// The service that a row gives. Both dates must be dates of the
/// calendar; the first day is read first.
pub open spec fn service_of(row: CalendarRow) -> Result<ServiceView, LoadError> {
    if date_of_num(row.start_date) is None {
        Err(LoadError::InvalidDate(row.start_date))
    } else if date_of_num(row.end_date) is None {
        Err(LoadError::InvalidDate(row.end_date))
    } else {
        Ok(
            ServiceView {
                start_date: date_of_num(row.start_date).unwrap(),
                end_date: date_of_num(row.end_date).unwrap(),
                id: row.service_id@,
                weekdays: weekdays_of(row),
            },
        )
    }
}

/// Makes the service of one row.
pub fn service_from_row(row: &CalendarRow) -> (res: Result<Service, LoadError>)
    ensures
        res is Ok <==> service_of(*row) is Ok,
        res matches Ok(service) ==> Ok::<ServiceView, LoadError>(service@) == service_of(*row),
        res matches Err(e) ==> Err::<ServiceView, LoadError>(e) == service_of(*row),
{
    let start_date = match date_from_num(row.start_date) {
        Some(date) => date,
        None => {
            return Err(LoadError::InvalidDate(row.start_date));
        },
    };
    let end_date = match date_from_num(row.end_date) {
        Some(date) => date,
        None => {
            return Err(LoadError::InvalidDate(row.end_date));
        },
    };
    Ok(
        Service {
            weekdays: weekdays_from_row(row),
            start_date,
            end_date,
            id: row.service_id.clone(),
        },
    )
}

/// The service calendars, one for each row and in the order of the rows.
/// Fails with the error of the first row that gives no service.
pub fn services(rows: &Vec<CalendarRow>) -> (res: Result<Vec<Service>, LoadError>)
    ensures
        match res {
            Ok(list) => {
                &&& list.len() == rows.len()
                &&& forall|i: int|
                    0 <= i < rows.len() ==> Ok::<ServiceView, LoadError>((#[trigger] list@[i])@)
                        == service_of(rows@[i])
            },
            Err(e) => exists|i: int|
                {
                    &&& 0 <= i < rows.len()
                    &&& #[trigger] service_of(rows@[i]) == Err::<ServiceView, LoadError>(e)
                    &&& forall|j: int| 0 <= j < i ==> #[trigger] service_of(rows@[j]) is Ok
                },
        },
{
    let mut list: Vec<Service> = Vec::new();
    let mut i: usize = 0;
    while i < rows.len()
        invariant
            i <= rows.len(),
            list.len() == i,
            forall|j: int|
                0 <= j < i ==> Ok::<ServiceView, LoadError>((#[trigger] list@[j])@) == service_of(
                    rows@[j],
                ),
        decreases rows.len() - i,
    {
        match service_from_row(&rows[i]) {
            Ok(service) => {
                list.push(service);
            },
            Err(e) => {
                assert(service_of(rows@[i as int]) == Err::<ServiceView, LoadError>(e));
                assert forall|j: int| 0 <= j < i implies #[trigger] service_of(rows@[j])
                    is Ok by {
                    assert(Ok::<ServiceView, LoadError>(list@[j]@) == service_of(rows@[j]));
                }
                return Err(e);
            },
        }
        i += 1;
    }
    Ok(list)
}

/// A row of the table of stops: a platform with its code, and the
/// station it belongs to.
#[derive(Debug)]
pub struct StationRow {
    pub station_id: i64,
    pub name: String,
    pub stop_code: i64,
}

/// The indices of the rows that are the first of their station.
pub open spec fn is_first_in(rows: Seq<StationRow>) -> spec_fn(int) -> bool {
    |i: int|
        0 <= i < rows.len() && forall|j: int|
            0 <= j < i ==> (#[trigger] rows[j]).station_id != rows[i].station_id
}

/// The numbers from 0 up to `n`.
pub open spec fn indices(n: int) -> Seq<int> {
    Seq::new(n as nat, |i: int| i)
}

/// The indices of the rows that are the first of their station, in
/// ascending order.
pub open spec fn first_rows(rows: Seq<StationRow>) -> Seq<int> {
    indices(rows.len() as int).filter(is_first_in(rows))
}

/// The rows of station `station_id`.
pub open spec fn of_station(station_id: i64) -> spec_fn(StationRow) -> bool {
    |row: StationRow| row.station_id == station_id
}

/// The platform code of a row.
pub open spec fn code_of() -> spec_fn(StationRow) -> i64 {
    |row: StationRow| row.stop_code
}

/// The platform codes of station `station_id`, in the order of the rows.
pub open spec fn codes_of(rows: Seq<StationRow>, station_id: i64) -> Seq<i64> {
    rows.filter(of_station(station_id)).map_values(code_of())
}

/// The station of row `k`: the name of that row, and the platform codes
/// of all rows of its station.
pub open spec fn station_at(rows: Seq<StationRow>, k: int) -> StationView {
    StationView {
        name: rows[k].name@,
        station_id: rows[k].station_id,
        stop_codes: codes_of(rows, rows[k].station_id),
    }
}

/// The codes of a station once one more row is read.
proof fn lemma_codes_of_next(rows: Seq<StationRow>, k: int, station_id: i64)
    requires
        0 <= k < rows.len(),
    ensures
        codes_of(rows.take(k + 1), station_id) == if rows[k].station_id == station_id {
            codes_of(rows.take(k), station_id).push(rows[k].stop_code)
        } else {
            codes_of(rows.take(k), station_id)
        },
{
    reveal(Seq::filter);
    let pred = of_station(station_id);
    assert(rows.take(k + 1).drop_last() == rows.take(k));
    let kept = rows.take(k).filter(pred);
    if rows[k].station_id == station_id {
        assert(kept.push(rows[k]).map_values(code_of()) == kept.map_values(code_of()).push(
            rows[k].stop_code,
        ));
    }
}

/// A station that no row names has no codes.
proof fn lemma_codes_of_none(rows: Seq<StationRow>, station_id: i64)
    requires
        forall|j: int| 0 <= j < rows.len() ==> (#[trigger] rows[j]).station_id != station_id,
    ensures
        codes_of(rows, station_id) == Seq::<i64>::empty(),
{
    rows.lemma_all_neg_filter_empty(of_station(station_id));
    assert(rows.filter(of_station(station_id)).map_values(code_of()) == Seq::<i64>::empty());
}

/// The first rows among the first `k + 1` indices.
proof fn lemma_first_rows_next(rows: Seq<StationRow>, k: int)
    requires
        0 <= k < rows.len(),
    ensures
        indices(k + 1).filter(is_first_in(rows)) == if is_first_in(rows)(k) {
            indices(k).filter(is_first_in(rows)).push(k)
        } else {
            indices(k).filter(is_first_in(rows))
        },
{
    reveal(Seq::filter);
    assert(indices(k + 1).drop_last() == indices(k));
}

/// `stations` are the stations of the first `k` rows.
spec fn groups(rows: Seq<StationRow>, k: int, stations: Seq<Station>) -> bool {
    &&& stations.len() == indices(k).filter(is_first_in(rows)).len()
    &&& forall|i: int|
        0 <= i < stations.len() ==> group_of(
            rows,
            k,
            #[trigger] stations[i],
            indices(k).filter(is_first_in(rows))[i],
        )
}

/// `station` is the station of row `a`, with the codes of the first `k`
/// rows.
spec fn group_of(rows: Seq<StationRow>, k: int, station: Station, a: int) -> bool {
    &&& 0 <= a < k
    &&& station.station_id == rows[a].station_id
    &&& station.name@ == rows[a].name@
    &&& station.stop_codes@ == codes_of(rows.take(k), station.station_id)
}

/// The stations of the rows: one for each station, in the order in which
/// the rows first name them, each with the name that its first row gives
/// it and with the platform codes of all its rows.
pub fn all_stations(rows: &Vec<StationRow>) -> (res: Vec<Station>)
    ensures
        res.len() == first_rows(rows@).len(),
        forall|i: int|
            0 <= i < res.len() ==> (#[trigger] res@[i])@ == station_at(rows@, first_rows(rows@)[i]),
        forall|i: int, j: int|
            0 <= i < j < res.len() ==> (#[trigger] res@[i]).station_id != (
            #[trigger] res@[j]).station_id,
        forall|r: int|
            0 <= r < rows.len() ==> exists|i: int|
                0 <= i < res.len() && (#[trigger] res@[i]).station_id == (
                #[trigger] rows@[r]).station_id,
{
    let ghost first = is_first_in(rows@);
    let mut res: Vec<Station> = Vec::new();
    let mut k: usize = 0;
    proof {
        reveal(Seq::filter);
        assert(indices(0) == Seq::<int>::empty());
    }
    while k < rows.len()
        invariant
            k <= rows.len(),
            first == is_first_in(rows@),
            groups(rows@, k as int, res@),
            forall|i: int, j: int|
                0 <= i < j < res.len() ==> (#[trigger] res@[i]).station_id != (
                #[trigger] res@[j]).station_id,
            forall|r: int|
                0 <= r < k ==> exists|i: int|
                    0 <= i < res.len() && (#[trigger] res@[i]).station_id == (
                    #[trigger] rows@[r]).station_id,
        decreases rows.len() - k,
    {
        let row = &rows[k];
        let ghost before = res@;
        let ghost found = indices(k as int).filter(first);
        // look for the station of the row
        let mut at: usize = 0;
        while at < res.len() && res[at].station_id != row.station_id
            invariant
                at <= res.len(),
                forall|i: int| 0 <= i < at ==> (#[trigger] res@[i]).station_id != row.station_id,
            decreases res.len() - at,
        {
            at += 1;
        }
        proof {
            lemma_first_rows_next(rows@, k as int);
            assert forall|i: int| 0 <= i < res.len() implies codes_of(
                rows@.take(k + 1),
                (#[trigger] res@[i]).station_id,
            ) == if res@[i].station_id == row.station_id {
                res@[i].stop_codes@.push(row.stop_code)
            } else {
                res@[i].stop_codes@
            } by {
                lemma_codes_of_next(rows@, k as int, res@[i].station_id);
            }
        }
        if at < res.len() {
            proof {
                // a station with the row's identifier is there, so an
                // earlier row named it
                let earlier = found[at as int];
                assert(group_of(rows@, k as int, before[at as int], earlier));
                assert(!first(k as int));
            }
            res[at].stop_codes.push(row.stop_code);
            proof {
                assert forall|r: int| 0 <= r < k + 1 implies exists|i: int|
                    0 <= i < res.len() && (#[trigger] res@[i]).station_id == (
                    #[trigger] rows@[r]).station_id by {
                    if r < k {
                        let i = choose|i: int|
                            0 <= i < before.len() && (#[trigger] before[i]).station_id
                                == rows@[r].station_id;
                        assert(res@[i].station_id == rows@[r].station_id);
                    } else {
                        assert(res@[at as int].station_id == rows@[r].station_id);
                    }
                }
                assert(indices(k + 1).filter(first) == found);
                assert forall|i: int| 0 <= i < res@.len() implies group_of(
                    rows@,
                    k + 1,
                    #[trigger] res@[i],
                    found[i],
                ) by {
                    assert(group_of(rows@, k as int, before[i], found[i]));
                    assert(res@[i].station_id == before[i].station_id);
                    if i != at {
                        assert(before[i].station_id != before[at as int].station_id);
                    }
                }
            }
        } else {
            proof {
                // no station has the row's identifier, so no earlier row
                // named it
                assert forall|j: int| 0 <= j < k implies (#[trigger] rows@[j]).station_id
                    != row.station_id by {
                    let i = choose|i: int|
                        0 <= i < res.len() && (#[trigger] res@[i]).station_id
                            == rows@[j].station_id;
                }
                assert(first(k as int));
                assert forall|j: int| 0 <= j < rows@.take(k as int).len() implies (
                #[trigger] rows@.take(k as int)[j]).station_id != row.station_id by {
                    assert(rows@.take(k as int)[j] == rows@[j]);
                }
                lemma_codes_of_none(rows@.take(k as int), row.station_id);
                lemma_codes_of_next(rows@, k as int, row.station_id);
            }
            let mut stop_codes: Vec<i64> = Vec::new();
            stop_codes.push(row.stop_code);
            res.push(Station { name: row.name.clone(), station_id: row.station_id, stop_codes });
            proof {
                assert(Seq::<i64>::empty().push(row.stop_code) == seq![row.stop_code]);
                assert forall|r: int| 0 <= r < k + 1 implies exists|i: int|
                    0 <= i < res.len() && (#[trigger] res@[i]).station_id == (
                    #[trigger] rows@[r]).station_id by {
                    if r < k {
                        let i = choose|i: int|
                            0 <= i < before.len() && (#[trigger] before[i]).station_id
                                == rows@[r].station_id;
                        assert(res@[i].station_id == rows@[r].station_id);
                    } else {
                        assert(res@[before.len() as int].station_id == rows@[r].station_id);
                    }
                }
                assert(indices(k + 1).filter(first) == found.push(k as int));
                assert forall|i: int| 0 <= i < res@.len() implies group_of(
                    rows@,
                    k + 1,
                    #[trigger] res@[i],
                    found.push(k as int)[i],
                ) by {
                    if i < before.len() {
                        assert(res@[i] == before[i]);
                        assert(group_of(rows@, k as int, before[i], found[i]));
                    }
                }
            }
        }
        k += 1;
    }
    proof {
        assert(rows@.take(k as int) == rows@);
    }
    res
}

} // verus!
