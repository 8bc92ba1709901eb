//! The one slot that holds the last list of overlays, and the decisions
//! of a refresh.
//!
//! A caller first asks [`LiveStatusCache::get`]. On a miss it enters the
//! exclusive section, asks `get` again, and only if that misses too does
//! it call the feed and hand what came back to
//! [`LiveStatusCache::on_response`] and, once the payload is decoded, to
//! [`LiveStatusCache::store`].

use crate::live::{
    merge, overlay_at, ApiResponse, MonitoredStopVisit, COOL_DOWN_SECONDS, FEED_PREFIX_LEN,
    FRESH_SECONDS, OK, TOO_MANY_REQUESTS,
};
use crate::model::{clone_stops, stop_view, Station, Stop};
use crate::query::Error;
use crate::time::Timestamp;
use vstd::prelude::*;
use vstd::slice::slice_subrange;

verus! {

/// A point in time without bounds: seconds since 1970-01-01T00:00:00Z and
/// nanoseconds past them.
pub struct Deadline {
    pub seconds: int,
    pub nanos: int,
}

impl Deadline {
    /// The deadline lies after `now`.
    pub open spec fn after(self, now: Timestamp) -> bool {
        now.seconds < self.seconds || (now.seconds == self.seconds && now.nanos < self.nanos)
    }
}

/// The point in time that lies `seconds` after `now`.
pub open spec fn later(now: Timestamp, seconds: int) -> Deadline {
    Deadline { seconds: now.seconds + seconds, nanos: now.nanos as int }
}

/// What the slot holds: a list of overlays and the time at which it
/// stops being served.
#[derive(Debug)]
pub struct LiveCacheEntry {
    value: Vec<Stop>,
    stored_at: Timestamp,
    ttl_seconds: u32,
}

/// What a [`LiveCacheEntry`] holds, as mathematical values.
pub struct LiveCacheEntryView {
    pub value: Seq<Stop>,
    pub expires_at: Deadline,
}

impl View for LiveCacheEntry {
    type V = LiveCacheEntryView;

    closed spec fn view(&self) -> LiveCacheEntryView {
        LiveCacheEntryView {
            value: self.value@,
            expires_at: later(self.stored_at, self.ttl_seconds as int),
        }
    }
}

/// The cache of the real-time feed: one slot for the whole feed.
#[derive(Debug)]
pub struct LiveStatusCache {
    entry: Option<LiveCacheEntry>,
}

impl View for LiveStatusCache {
    type V = Option<LiveCacheEntryView>;

    closed spec fn view(&self) -> Option<LiveCacheEntryView> {
        match self.entry {
            Some(entry) => Some(entry@),
            None => None,
        }
    }
}

/// The three states of the slot.
#[derive(Clone, Copy, Debug, PartialEq, Eq, Structural)]
pub enum CacheState {
    /// Nothing was stored yet.
    Empty,
    /// A list is held and is served.
    Fresh,
    /// A list is held and is no longer served.
    Stale,
}

/// The state of a slot at `now`.
pub open spec fn state_at(slot: Option<LiveCacheEntryView>, now: Timestamp) -> CacheState {
    match slot {
        None => CacheState::Empty,
        Some(entry) => if entry.expires_at.after(now) {
            CacheState::Fresh
        } else {
            CacheState::Stale
        },
    }
}

/// What a slot serves at `now`: its list while it is fresh, and nothing
/// otherwise.
pub open spec fn lookup(slot: Option<LiveCacheEntryView>, now: Timestamp) -> Option<Seq<Stop>> {
    match slot {
        Some(entry) if entry.expires_at.after(now) => Some(entry.value),
        _ => None,
    }
}

/// The slot after `value` was stored at `now` for `ttl_seconds`.
pub open spec fn stored(value: Seq<Stop>, ttl_seconds: int, now: Timestamp) -> Option<
    LiveCacheEntryView,
> {
    Some(LiveCacheEntryView { value, expires_at: later(now, ttl_seconds) })
}

/// The feed's payload: what follows the first three bytes of its answer.
/// An answer of fewer bytes has none.
pub open spec fn payload_of(body: Seq<u8>) -> Option<Seq<u8>> {
    if body.len() >= FEED_PREFIX_LEN {
        Some(body.skip(FEED_PREFIX_LEN as int))
    } else {
        None
    }
}

/// Cuts the feed's payload out of its answer.
///
/// The feed is known to put three bytes in front of its JSON text. They
/// are skipped whatever they are: an answer without them, or with more
/// of them, loses its first three bytes all the same.
pub fn payload<'a>(body: &'a [u8]) -> (res: Option<&'a [u8]>)
    ensures
        res is Some <==> payload_of(body@) is Some,
        res matches Some(p) ==> Some(p@) == payload_of(body@),
{
    if body.len() >= FEED_PREFIX_LEN {
        let p = slice_subrange(body, FEED_PREFIX_LEN, body.len());
        assert(p@ == body@.skip(FEED_PREFIX_LEN as int));
        Some(p)
    } else {
        None
    }
}

/// The visits of a decoded answer.
pub open spec fn visits_of(response: ApiResponse) -> Seq<MonitoredStopVisit> {
    response.service_delivery.stop_monitoring_delivery.monitored_stop_visit@
}

/// What remains to be done once the feed has answered.
#[derive(Debug, PartialEq, Eq)]
pub enum Refreshed<'a> {
    /// The feed limits the rate of requests. The slot now holds an empty
    /// list, which is the answer to serve.
    CoolDown,
    /// The feed answered in full. Its payload is to be decoded and handed
    /// to [`LiveStatusCache::store`].
    Payload(&'a [u8]),
}

impl LiveStatusCache {
    /// A slot in which nothing was stored yet.
    pub fn new() -> (cache: Self)
        ensures
            cache@ is None,
    {
        LiveStatusCache { entry: None }
    }

    fn is_fresh(entry: &LiveCacheEntry, now: &Timestamp) -> (b: bool)
        ensures
            b == entry@.expires_at.after(*now),
    {
        let deadline: i128 = entry.stored_at.seconds as i128 + entry.ttl_seconds as i128;
        let seconds: i128 = now.seconds as i128;
        seconds < deadline || (seconds == deadline && now.nanos < entry.stored_at.nanos)
    }

    /// The state of the slot at `now`.
    pub fn state(&self, now: &Timestamp) -> (res: CacheState)
        ensures
            res == state_at(self@, *now),
    {
        match &self.entry {
            None => CacheState::Empty,
            Some(entry) => if Self::is_fresh(entry, now) {
                CacheState::Fresh
            } else {
                CacheState::Stale
            },
        }
    }

    /// The list that the slot serves at `now`; none unless the slot is
    /// fresh.
    pub fn get(&self, now: &Timestamp) -> (res: Option<Vec<Stop>>)
        ensures
            res is Some <==> lookup(self@, *now) is Some,
            res matches Some(value) ==> Some(value@) == lookup(self@, *now),
    {
        match &self.entry {
            Some(entry) => if Self::is_fresh(entry, now) {
                Some(clone_stops(&entry.value))
            } else {
                None
            },
            None => None,
        }
    }

    /// Stores `value` at `now` to be served for `ttl_seconds`, in the
    /// place of what the slot held.
    pub fn insert(&mut self, value: Vec<Stop>, ttl_seconds: u32, now: &Timestamp)
        ensures
            final(self)@ == stored(value@, ttl_seconds as int, *now),
    {
        self.entry = Some(LiveCacheEntry { value, stored_at: *now, ttl_seconds });
    }

    /// Decides what the feed's answer means for the slot.
    ///
    /// With status 429 the slot takes an empty list for a minute, and the
    /// empty list is the answer. With status 200 the slot is left as it
    /// is and the payload is handed out, or the answer is refused as too
    /// short. Any other status is an error and leaves the slot as it is,
    /// so that the next caller asks the feed again.
    pub fn on_response<'a>(&mut self, status: u16, body: &'a [u8], now: &Timestamp) -> (res: Result<
        Refreshed<'a>,
        Error,
    >)
        ensures
            match res {
                Ok(Refreshed::CoolDown) => {
                    &&& status == TOO_MANY_REQUESTS
                    &&& final(self)@ == stored(Seq::empty(), COOL_DOWN_SECONDS as int, *now)
                },
                Ok(Refreshed::Payload(p)) => {
                    &&& status == OK
                    &&& payload_of(body@) == Some(p@)
                    &&& final(self)@ == old(self)@
                },
                Err(e) => {
                    &&& status != TOO_MANY_REQUESTS
                    &&& final(self)@ == old(self)@
                    &&& if status == OK {
                        payload_of(body@) is None && e == Error::MalformedBody
                    } else {
                        e == Error::UpstreamStatus(status)
                    }
                },
            },
    {
        if status == TOO_MANY_REQUESTS {
            self.insert(Vec::new(), COOL_DOWN_SECONDS, now);
            Ok(Refreshed::CoolDown)
        } else if status != OK {
            Err(Error::UpstreamStatus(status))
        } else {
            match payload(body) {
                Some(p) => Ok(Refreshed::Payload(p)),
                None => Err(Error::MalformedBody),
            }
        }
    }

    /// Makes the overlays of a decoded answer, stores them at `now` for
    /// two minutes and hands them out.
    pub fn store(
        &mut self,
        response: &ApiResponse,
        stations: &Vec<Station>,
        local_offset: i32,
        now: &Timestamp,
    ) -> (stops: Vec<Stop>)
        ensures
            stops@.map_values(stop_view()) == visits_of(*response).filter_map(
                overlay_at(stations@, local_offset),
            ),
            final(self)@ == stored(stops@, FRESH_SECONDS as int, *now),
    {
        let stops = merge(
            &response.service_delivery.stop_monitoring_delivery.monitored_stop_visit,
            stations,
            local_offset,
        );
        self.insert(clone_stops(&stops), FRESH_SECONDS, now);
        stops
    }
}

/// After the feed has limited the rate of requests at `limited_at`, the
/// slot serves the empty list to every caller that comes less than a
/// minute later, so that none of them asks the feed; from a minute on it
/// serves nothing, so that the next caller asks the feed again.
pub proof fn lemma_cool_down(limited_at: Timestamp, now: Timestamp)
    ensures
        later(limited_at, COOL_DOWN_SECONDS as int).after(now) ==> lookup(
            stored(Seq::empty(), COOL_DOWN_SECONDS as int, limited_at),
            now,
        ) == Some(Seq::<Stop>::empty()),
        !later(limited_at, COOL_DOWN_SECONDS as int).after(now) ==> lookup(
            stored(Seq::empty(), COOL_DOWN_SECONDS as int, limited_at),
            now,
        ) is None,
        now.seconds - limited_at.seconds < COOL_DOWN_SECONDS ==> later(
            limited_at,
            COOL_DOWN_SECONDS as int,
        ).after(now),
        now.seconds - limited_at.seconds > COOL_DOWN_SECONDS ==> !later(
            limited_at,
            COOL_DOWN_SECONDS as int,
        ).after(now),
{
}

/// What a stored list is served for: to every caller before its deadline
/// the list itself, to every caller from the deadline on nothing.
pub proof fn lemma_stored_is_served(
    value: Seq<Stop>,
    ttl_seconds: int,
    stored_at: Timestamp,
    now: Timestamp,
)
    ensures
        lookup(stored(value, ttl_seconds, stored_at), now) == if later(
            stored_at,
            ttl_seconds,
        ).after(now) {
            Some(value)
        } else {
            None
        },
{
}

/// One caller inside the exclusive section: it is served from the slot
/// if the slot is fresh; otherwise it asks the feed, which answers with
/// `fetched`, and stores the answer for `ttl_seconds`. The result is the
/// slot afterwards, whether the feed was asked, and the list served.
pub open spec fn enter(
    slot: Option<LiveCacheEntryView>,
    now: Timestamp,
    fetched: Seq<Stop>,
    ttl_seconds: int,
) -> (Option<LiveCacheEntryView>, bool, Seq<Stop>) {
    match lookup(slot, now) {
        Some(value) => (slot, false, value),
        None => (stored(fetched, ttl_seconds, now), true, fetched),
    }
}

/// How often the feed is asked when callers enter the exclusive section
/// one after another at the times `arrivals`.
pub open spec fn fetches(
    slot: Option<LiveCacheEntryView>,
    arrivals: Seq<Timestamp>,
    fetched: Seq<Stop>,
    ttl_seconds: int,
) -> nat
    decreases arrivals.len(),
{
    if arrivals.len() == 0 {
        0
    } else {
        let (next, asked, _) = enter(slot, arrivals[0], fetched, ttl_seconds);
        (if asked {
            1nat
        } else {
            0nat
        }) + fetches(next, arrivals.skip(1), fetched, ttl_seconds)
    }
}

/// The lists that those callers are served, in their order.
pub open spec fn answers(
    slot: Option<LiveCacheEntryView>,
    arrivals: Seq<Timestamp>,
    fetched: Seq<Stop>,
    ttl_seconds: int,
) -> Seq<Seq<Stop>>
    decreases arrivals.len(),
{
    if arrivals.len() == 0 {
        Seq::empty()
    } else {
        let (next, _, answer) = enter(slot, arrivals[0], fetched, ttl_seconds);
        seq![answer] + answers(next, arrivals.skip(1), fetched, ttl_seconds)
    }
}

proof fn lemma_served_from_slot(
    slot: Option<LiveCacheEntryView>,
    arrivals: Seq<Timestamp>,
    fetched: Seq<Stop>,
    ttl_seconds: int,
)
    requires
        forall|i: int|
            0 <= i < arrivals.len() ==> lookup(slot, #[trigger] arrivals[i]) == Some(fetched),
    ensures
        fetches(slot, arrivals, fetched, ttl_seconds) == 0,
        answers(slot, arrivals, fetched, ttl_seconds).len() == arrivals.len(),
        forall|i: int|
            0 <= i < arrivals.len() ==> #[trigger] answers(
                slot,
                arrivals,
                fetched,
                ttl_seconds,
            )[i] == fetched,
    decreases arrivals.len(),
{
    if arrivals.len() > 0 {
        let rest = arrivals.skip(1);
        assert forall|i: int| 0 <= i < rest.len() implies lookup(slot, #[trigger] rest[i]) == Some(
            fetched,
        ) by {
            assert(rest[i] == arrivals[i + 1]);
        }
        lemma_served_from_slot(slot, rest, fetched, ttl_seconds);
        assert(lookup(slot, arrivals[0]) == Some(fetched));
    }
}

/// Callers that find the slot stale and enter the exclusive section one
/// after another ask the feed once: the first of them does, and every one
/// of them is served what the feed answered, as long as each arrives
/// before the answer expires.
pub proof fn lemma_single_flight(
    slot: Option<LiveCacheEntryView>,
    arrivals: Seq<Timestamp>,
    fetched: Seq<Stop>,
    ttl_seconds: int,
)
    requires
        arrivals.len() > 0,
        lookup(slot, arrivals[0]) is None,
        forall|i: int|
            0 < i < arrivals.len() ==> later(arrivals[0], ttl_seconds).after(
                #[trigger] arrivals[i],
            ),
    ensures
        fetches(slot, arrivals, fetched, ttl_seconds) == 1,
        answers(slot, arrivals, fetched, ttl_seconds).len() == arrivals.len(),
        forall|i: int|
            0 <= i < arrivals.len() ==> #[trigger] answers(
                slot,
                arrivals,
                fetched,
                ttl_seconds,
            )[i] == fetched,
{
    let next = stored(fetched, ttl_seconds, arrivals[0]);
    let rest = arrivals.skip(1);
    assert forall|i: int| 0 <= i < rest.len() implies lookup(next, #[trigger] rest[i]) == Some(
        fetched,
    ) by {
        assert(rest[i] == arrivals[i + 1]);
    }
    lemma_served_from_slot(next, rest, fetched, ttl_seconds);
}

} // verus!
