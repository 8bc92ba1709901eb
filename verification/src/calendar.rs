//! Service calendars: on which days the trips of a service run.

use crate::time::{Date, DateView, Weekday};
use vstd::prelude::*;

verus! {

/// A service calendar: the trips under `id` run on the days of
/// `weekdays` from `start_date` to `end_date`, both included.
#[derive(Debug, PartialEq, Eq)]
pub struct Service {
    pub start_date: Date,
    pub end_date: Date,
    pub id: String,
    pub weekdays: Vec<Weekday>,
}

impl Clone for Service {
    fn clone(&self) -> (res: Self)
        ensures
            res@ == self@,
    {
        let mut weekdays: Vec<Weekday> = Vec::new();
        let mut i: usize = 0;
        while i < self.weekdays.len()
            invariant
                i <= self.weekdays.len(),
                weekdays@ == self.weekdays@.take(i as int),
            decreases self.weekdays.len() - i,
        {
            weekdays.push(self.weekdays[i]);
            assert(self.weekdays@.take(i + 1) == self.weekdays@.take(i as int).push(
                self.weekdays@[i as int],
            ));
            i += 1;
        }
        assert(self.weekdays@.take(i as int) == self.weekdays@);
        Service {
            start_date: self.start_date,
            end_date: self.end_date,
            id: self.id.clone(),
            weekdays,
        }
    }
}

/// What a [`Service`] holds, as mathematical values.
pub struct ServiceView {
    pub start_date: DateView,
    pub end_date: DateView,
    pub id: Seq<char>,
    pub weekdays: Seq<Weekday>,
}

impl View for Service {
    type V = ServiceView;

    open spec fn view(&self) -> ServiceView {
        ServiceView {
            start_date: self.start_date@,
            end_date: self.end_date@,
            id: self.id@,
            weekdays: self.weekdays@,
        }
    }
}

/// The service runs on `today`: the day lies in the service's range of
/// dates, its ends included, and is one of the service's weekdays.
pub open spec fn runs_on(service: Service, today: DateView) -> bool {
    &&& service.start_date@.at_or_before(today)
    &&& today.at_or_before(service.end_date@)
    &&& service.weekdays@.contains(today.weekday)
}

/// The services that run on `today`.
pub open spec fn is_active(today: DateView) -> spec_fn(Service) -> bool {
    |service: Service| runs_on(service, today)
}

/// The identifier of a service.
pub open spec fn id_of() -> spec_fn(Service) -> String {
    |service: Service| service.id
}

/// The identifiers of the services that run on `today`, in the order of
/// `services`.
pub open spec fn active_ids(services: Seq<Service>, today: DateView) -> Seq<String> {
    services.filter(is_active(today)).map_values(id_of())
}

fn has_weekday(weekdays: &Vec<Weekday>, day: Weekday) -> (b: bool)
    ensures
        b == weekdays@.contains(day),
{
    let mut i: usize = 0;
    while i < weekdays.len()
        invariant
            i <= weekdays.len(),
            forall|j: int| 0 <= j < i ==> weekdays@[j] != day,
        decreases weekdays.len() - i,
    {
        if weekdays[i] == day {
            return true;
        }
        i += 1;
    }
    false
}

/// Whether the service runs on `today`.
pub fn is_running(service: &Service, today: &Date) -> (b: bool)
    ensures
        b == runs_on(*service, today@),
{
    !today.is_before(&service.start_date) && !service.end_date.is_before(today) && has_weekday(
        &service.weekdays,
        today.weekday(),
    )
}

/// The identifiers of the services that run on `today`.
pub fn active_service_ids(services: &Vec<Service>, today: &Date) -> (ids: Vec<String>)
    ensures
        ids@ == active_ids(services@, today@),
{
    let ghost pred = is_active(today@);
    let mut ids: Vec<String> = Vec::new();
    let mut i: usize = 0;
    proof {
        reveal(Seq::filter);
        assert(services@.take(0) == Seq::<Service>::empty());
        assert(services@.take(0).filter(pred).map_values(id_of()) == Seq::<String>::empty());
    }
    while i < services.len()
        invariant
            i <= services.len(),
            pred == is_active(today@),
            ids@ == services@.take(i as int).filter(pred).map_values(id_of()),
        decreases services.len() - i,
    {
        let service = &services[i];
        let ghost done = services@.take(i as int).filter(pred);
        proof {
            reveal(Seq::filter);
            assert(services@.take(i + 1).drop_last() == services@.take(i as int));
        }
        if is_running(service, today) {
            ids.push(service.id.clone());
            assert(done.push(*service).map_values(id_of()) == done.map_values(id_of()).push(
                service.id,
            ));
        }
        i += 1;
    }
    assert(services@.take(i as int) == services@);
    ids
}

} // verus!
