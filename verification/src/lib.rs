//! A small in-memory calendar library.
//!
//! Events are named, time-bounded entries with a validated window (end
//! strictly after start, at second resolution) and a 128-bit identifier
//! drawn at creation. An `EventCalendar` stores events in chronological
//! order with identifiers unique, and answers identifier lookups, removals
//! and inclusive range queries over them.
mod cal;
mod event;
mod render;
mod test_fns;
mod time;

pub use crate::cal::{calendar_wf, in_range, insert_sorted, range_filter, remove_id};
pub use crate::cal::{lemma_add_id_present, lemma_add_remove_round_trip};
pub use crate::cal::lemma_range_filter_contains;
pub use crate::cal::{lemma_range_filter_wf, lemma_spec_get_membership};
pub use crate::cal::{spec_add, spec_get, EventCalendar};
pub use crate::event::{char_seq_lt, event_lt, str_lt, view_lt, Event, EventView};
pub use crate::event::{lemma_char_seq_lt_transitive, lemma_view_lt_transitive};
pub use crate::event::{lemma_char_seq_lt_trichotomy, lemma_view_lt_trichotomy};
pub use crate::event::lemma_event_duration_positive;
pub use crate::render::{dec2, dec4, dt_text, escape_char, hex_digit_char, hex_w};
pub use crate::render::{json_escaped, serial_text, uuid_text};
pub use crate::test_fns::{first_day_2023_nd, first_day_2023_ndt, first_time_nt, last_time_nt};
pub use crate::time::{date_lt, dt_le, dt_le_exec, dt_lt, dt_lt_exec, time_lt};
pub use crate::time::{day_number, seconds_of, seconds_of_time, spec_days_before_month};
pub use crate::time::{days_in_month, is_leap_year, Date, DateTime, Time};
pub use crate::time::{lemma_date_lt_iff_day_number, lemma_dt_lt_iff_seconds};
pub use crate::time::{lemma_dt_order_trichotomy, spec_days_in_month, spec_is_leap_year};
pub use crate::time::{spec_days_before_year, spec_leap_years_before};

use vstd::prelude::*;

verus! {

/// Errors that can occur when changing an event's time fields.
#[derive(Debug, PartialEq, Eq, Structural, Clone, Copy)]
pub enum EventError {
    /// A requested start timestamp is not strictly before the event's end.
    InvalidStartTime,
    /// A requested end timestamp is not strictly after the event's start.
    InvalidEndTime,
}

/// Conversion into the raw 128-bit identifier value used to key events.
///
/// Lookups and removals accept an identifier by value or by reference;
/// they do not accept unparsed text. Converting text into an identifier is
/// an explicit, fallible step performed by the caller at the boundary.
pub trait IntoUuid: Sized {
    /// The identifier value this converts to.
    spec fn uuid_spec(self) -> u128;

    /// Yields the identifier value.
    fn into_uuid(self) -> (r: u128)
        ensures
            r == self.uuid_spec(),
    ;
}

impl IntoUuid for u128 {
    open spec fn uuid_spec(self) -> u128 {
        self
    }

    fn into_uuid(self) -> (r: u128)
        ensures
            r == self.uuid_spec(),
    {
        self
    }
}

impl IntoUuid for &u128 {
    open spec fn uuid_spec(self) -> u128 {
        *self
    }

    fn into_uuid(self) -> (r: u128)
        ensures
            r == self.uuid_spec(),
    {
        *self
    }
}

/// The first time of any day, 00:00:00.
pub fn day_start() -> (r: Time)
    ensures
        r == (Time { hour: 0, minute: 0, second: 0 }),
        r.wf(),
{
    Time { hour: 0, minute: 0, second: 0 }
}

/// The last time of any day at second resolution, 23:59:59.
pub fn day_end() -> (r: Time)
    ensures
        r == (Time { hour: 23, minute: 59, second: 59 }),
        r.wf(),
{
    Time { hour: 23, minute: 59, second: 59 }
}

} // verus!
