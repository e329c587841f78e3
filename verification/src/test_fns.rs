//! Small builders for fixed dates and times used by callers and tests.
use crate::time::{Date, DateTime, Time};
use vstd::prelude::*;

verus! {

/// The first date of 2023: January 1st.
pub fn first_day_2023_nd() -> (d: Date)
    ensures
        d == (Date { year: 2023, month: 1, day: 1 }),
        d.wf(),
{
    Date { year: 2023, month: 1, day: 1 }
}

/// The first time of any day, 00:00:00.
pub fn first_time_nt() -> (t: Time)
    ensures
        t == (Time { hour: 0, minute: 0, second: 0 }),
        t.wf(),
{
    Time { hour: 0, minute: 0, second: 0 }
}

/// The last time of any day at second resolution, 23:59:59.
pub fn last_time_nt() -> (t: Time)
    ensures
        t == (Time { hour: 23, minute: 59, second: 59 }),
        t.wf(),
{
    Time { hour: 23, minute: 59, second: 59 }
}

/// The first timestamp of 2023: January 1st at 00:00:00.
pub fn first_day_2023_ndt() -> (dt: DateTime)
    ensures
        dt == (DateTime {
            date: (Date { year: 2023, month: 1, day: 1 }),
            time: (Time { hour: 0, minute: 0, second: 0 }),
        }),
        dt.wf(),
{
    let nd = first_day_2023_nd();
    let nt = first_time_nt();
    DateTime::new(nd, nt)
}

} // verus!
