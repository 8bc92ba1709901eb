//! Trip resolution and live-status merging for a commuter-rail schedule.
//!
//! The crate answers two questions over an in-memory schedule snapshot:
//! which trains leave a station next, and which trains run between two
//! stations. A small cache state machine decides when the real-time feed
//! has to be fetched again, and a merger turns feed records into overlays
//! for scheduled stops.
//!
//! - [`time`], [`number`]: instants, dates, weekdays; decimal numbers in
//!   bytes.
//! - [`model`]: stations, stops, legs, trips.
//! - [`load`]: from the rows of the schedule's tables to the snapshot.
//! - [`calendar`]: which services run on a day.
//! - [`order`], [`matcher`]: the stable sort by time, and the matching of
//!   stops against one station or two.
//! - [`query`]: the queries over a snapshot, and their errors.
//! - [`live`], [`cache`]: the feed's records and the overlays made from
//!   them; the slot that holds the last list of overlays.
//! - [`overlay`], [`context`]: what a client needs to lay estimates over
//!   scheduled times and to keep its own state.
//!
//! Nothing here reads a clock, a file or a socket: the present instant and
//! day, the rows and the feed's answers are arguments.

pub mod cache;
pub mod calendar;
pub mod context;
pub mod live;
pub mod load;
pub mod matcher;
pub mod model;
pub mod number;
pub mod order;
pub mod overlay;
pub mod query;
pub mod time;
