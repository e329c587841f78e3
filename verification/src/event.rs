//! Calendar events: named, time-bounded entries with a unique identifier.
//!
//! An `Event` pairs a validated start/end window (`end` strictly after
//! `start`, at second resolution) with a name and a 128-bit identifier drawn
//! at creation. Events carry a strict total order — by start, then end, then
//! name, then identifier — used by the calendar's chronological index.
use crate::time::{dt_lt, Date, DateTime, Time};
use crate::EventError;
use vstd::prelude::*;

verus! {

use crate::{day_end, day_start};

/// The mathematical value of an `Event`: its four fields, with the name as a
/// sequence of characters.
#[verifier::ext_equal]
pub struct EventView {
    pub start: DateTime,
    pub end: DateTime,
    pub name: Seq<char>,
    pub id: u128,
}

/// One calendar entry: a start and end timestamp, a name, and an identifier
/// assigned at creation and immutable thereafter.
#[derive(PartialEq, Eq, PartialOrd, Ord, Debug, Hash)]
pub struct Event {
    start: DateTime,
    end: DateTime,
    name: String,
    id: u128,
}

impl View for Event {
    type V = EventView;

    closed spec fn view(&self) -> EventView {
        EventView { start: self.start, end: self.end, name: self.name@, id: self.id }
    }
}

/// Relies on `uuid::Uuid::new_v4` and `Uuid::as_u128`: a freshly drawn
/// random 128-bit identifier. Nothing is promised of its value.
#[verifier::external_body]
fn fresh_event_id() -> u128 {
    uuid::Uuid::new_v4().as_u128()
}

/// Strict lexicographic order on character sequences, by code point.
pub open spec fn char_seq_lt(a: Seq<char>, b: Seq<char>) -> bool
    decreases a.len(),
{
    if b.len() == 0 {
        false
    } else if a.len() == 0 {
        true
    } else if a[0] != b[0] {
        (a[0] as int) < (b[0] as int)
    } else {
        char_seq_lt(a.drop_first(), b.drop_first())
    }
}

/// The strict total order on events: by start, then end, then name, then
/// identifier.
pub open spec fn view_lt(a: EventView, b: EventView) -> bool {
    ||| dt_lt(a.start, b.start)
    ||| (a.start == b.start && dt_lt(a.end, b.end))
    ||| (a.start == b.start && a.end == b.end && char_seq_lt(a.name, b.name))
    ||| (a.start == b.start && a.end == b.end && a.name == b.name && a.id < b.id)
}

/// Lexicographic order on character sequences is a strict total order.
pub proof fn lemma_char_seq_lt_trichotomy(a: Seq<char>, b: Seq<char>)
    ensures
        char_seq_lt(a, b) || a == b || char_seq_lt(b, a),
        char_seq_lt(a, b) ==> !(a == b) && !char_seq_lt(b, a),
        a == b ==> !char_seq_lt(a, b) && !char_seq_lt(b, a),
        char_seq_lt(b, a) ==> !(a == b) && !char_seq_lt(a, b),
    decreases a.len(),
{
    if a.len() == 0 && b.len() == 0 {
        assert(a =~= b);
    } else if a.len() > 0 && b.len() > 0 {
        if a[0] == b[0] {
            lemma_char_seq_lt_trichotomy(a.drop_first(), b.drop_first());
            if a.drop_first() == b.drop_first() {
                assert(a =~= b) by {
                    assert forall|k: int| 0 <= k < a.len() implies a[k] == b[k] by {
                        if k > 0 {
                            assert(a[k] == a.drop_first()[k - 1]);
                            assert(b[k] == b.drop_first()[k - 1]);
                        }
                    }
                }
            }
            if a == b {
                assert(a.drop_first() =~= b.drop_first());
            }
        }
    }
}

/// Every valid event spans a strictly positive number of seconds: the
/// difference between the absolute seconds of its end and of its start is
/// positive. This holds of every event a constructor or a successful
/// setter produces, since each of those establishes validity.
pub proof fn lemma_event_duration_positive(e: Event)
    requires
        e.valid(),
    ensures
        crate::time::seconds_of(e@.end) - crate::time::seconds_of(e@.start) > 0,
{
    crate::time::lemma_dt_lt_iff_seconds(e@.start, e@.end);
}

/// Lexicographic order on character sequences is transitive.
pub proof fn lemma_char_seq_lt_transitive(a: Seq<char>, b: Seq<char>, c: Seq<char>)
    requires
        char_seq_lt(a, b),
        char_seq_lt(b, c),
    ensures
        char_seq_lt(a, c),
    decreases a.len(),
{
    if a.len() > 0 {
        // b and c are nonempty since something sorts below each of them
        if a[0] == b[0] && b[0] == c[0] {
            lemma_char_seq_lt_transitive(a.drop_first(), b.drop_first(), c.drop_first());
        }
    }
}

/// The event total order is transitive.
pub proof fn lemma_view_lt_transitive(a: EventView, b: EventView, c: EventView)
    requires
        view_lt(a, b),
        view_lt(b, c),
    ensures
        view_lt(a, c),
{
    if a.start == b.start && b.start == c.start && a.end == b.end && b.end == c.end {
        if char_seq_lt(a.name, b.name) && char_seq_lt(b.name, c.name) {
            lemma_char_seq_lt_transitive(a.name, b.name, c.name);
        }
    }
}

/// The event order is a strict total order: for any two event values exactly
/// one of `view_lt(a, b)`, `a == b` (all four fields equal), `view_lt(b, a)`
/// holds; ties on start are broken by end, then name, then identifier.
pub proof fn lemma_view_lt_trichotomy(a: EventView, b: EventView)
    ensures
        view_lt(a, b) || a == b || view_lt(b, a),
        view_lt(a, b) ==> !(a == b) && !view_lt(b, a),
        a == b ==> !view_lt(a, b) && !view_lt(b, a),
        view_lt(b, a) ==> !(a == b) && !view_lt(a, b),
{
    lemma_char_seq_lt_trichotomy(a.name, b.name);
    if a.start == b.start && a.end == b.end && a.name == b.name && a.id == b.id {
        assert(a =~= b);
    }
}

/// Decides the lexicographic order on the character sequences of two strings.
pub fn str_lt(a: &str, b: &str) -> (r: bool)
    ensures
        r == char_seq_lt(a@, b@),
{
    let alen = a.unicode_len();
    let blen = b.unicode_len();
    let mut i: usize = 0;
    proof {
        assert(a@.skip(0) =~= a@);
        assert(b@.skip(0) =~= b@);
    }
    loop
        invariant
            i <= alen,
            i <= blen,
            alen == a@.len(),
            blen == b@.len(),
            char_seq_lt(a@, b@) == char_seq_lt(a@.skip(i as int), b@.skip(i as int)),
        decreases alen - i,
    {
        if i >= blen {
            return false;
        }
        if i >= alen {
            return true;
        }
        let ca = a.get_char(i);
        let cb = b.get_char(i);
        if ca != cb {
            return ca < cb;
        }
        proof {
            assert(a@.skip(i as int).drop_first() =~= a@.skip(i + 1));
            assert(b@.skip(i as int).drop_first() =~= b@.skip(i + 1));
        }
        i += 1;
    }
}

/// Decides the event total order on two events.
pub fn event_lt(a: &Event, b: &Event) -> (r: bool)
    ensures
        r == view_lt(a@, b@),
{
    if crate::time::dt_lt_exec(&a.start, &b.start) {
        true
    } else if crate::time::dt_lt_exec(&b.start, &a.start) {
        false
    } else if crate::time::dt_lt_exec(&a.end, &b.end) {
        true
    } else if crate::time::dt_lt_exec(&b.end, &a.end) {
        false
    } else if str_lt(a.name.as_str(), b.name.as_str()) {
        true
    } else if str_lt(b.name.as_str(), a.name.as_str()) {
        false
    } else {
        proof {
            lemma_char_seq_lt_trichotomy(a@.name, b@.name);
        }
        a.id < b.id
    }
}

impl Clone for Event {
    /// An exact copy: every field of the clone equals the original's.
    fn clone(&self) -> (res: Self)
        ensures
            res == *self,
    {
        Event { start: self.start, end: self.end, name: self.name.clone(), id: self.id }
    }
}

impl Event {
    /// A committed event is valid: its timestamps are well formed and its
    /// end is strictly after its start.
    pub open spec fn valid(self) -> bool {
        self@.start.wf() && self@.end.wf() && dt_lt(self@.start, self@.end)
    }

    /// The start timestamp.
    pub fn start(&self) -> (r: DateTime)
        ensures
            r == self@.start,
    {
        self.start
    }

    /// The end timestamp.
    pub fn end(&self) -> (r: DateTime)
        ensures
            r == self@.end,
    {
        self.end
    }

    /// The name of the event.
    pub fn name(&self) -> (r: &str)
        ensures
            r@ == self@.name,
    {
        self.name.as_str()
    }

    /// The identifier of the event.
    pub fn id(&self) -> (r: u128)
        ensures
            r == self@.id,
    {
        self.id
    }

    /// Creates an event on the given date spanning the full day, from
    /// 00:00:00 to 23:59:59, with a freshly drawn identifier.
    pub fn new(name: String, date: &Date) -> (r: Event)
        requires
            date.wf(),
        ensures
            r@.start == (DateTime { date: *date, time: (Time { hour: 0, minute: 0, second: 0 }) }),
            r@.end == (DateTime { date: *date, time: (Time { hour: 23, minute: 59, second: 59 }) }),
            r@.name == name@,
            r.valid(),
    {
        Event {
            start: DateTime::new(*date, day_start()),
            end: DateTime::new(*date, day_end()),
            name,
            id: fresh_event_id(),
        }
    }

    /// Replaces the start timestamp, keeping end, name and identifier.
    /// Fails with `InvalidStartTime` exactly when the new start is not
    /// strictly before the current end.
    pub fn set_start(self, start: DateTime) -> (r: Result<Event, EventError>)
        requires
            self.valid(),
            start.wf(),
        ensures
            (match r {
                Ok(e) => {
                    &&& dt_lt(start, self@.end)
                    &&& e@.start == start
                    &&& e@.end == self@.end
                    &&& e@.name == self@.name
                    &&& e@.id == self@.id
                    &&& e.valid()
                },
                Err(err) => !dt_lt(start, self@.end) && err == EventError::InvalidStartTime,
            }),
    {
        if crate::time::dt_lt_exec(&start, &self.end) {
            Ok(Event { start, end: self.end, name: self.name, id: self.id })
        } else {
            Err(EventError::InvalidStartTime)
        }
    }

    /// Replaces only the time-of-day component of the start timestamp.
    /// Fails with `InvalidStartTime` exactly when the recombined start is
    /// not strictly before the current end.
    pub fn set_start_time(self, start: Time) -> (r: Result<Event, EventError>)
        requires
            self.valid(),
            start.wf(),
        ensures
            (match r {
                Ok(e) => {
                    &&& dt_lt((DateTime { date: self@.start.date, time: start }), self@.end)
                    &&& e@.start == (DateTime { date: self@.start.date, time: start })
                    &&& e@.end == self@.end
                    &&& e@.name == self@.name
                    &&& e@.id == self@.id
                    &&& e.valid()
                },
                Err(err) => {
                    &&& !dt_lt((DateTime { date: self@.start.date, time: start }), self@.end)
                    &&& err == EventError::InvalidStartTime
                },
            }),
    {
        let new_start = DateTime::new(self.start.date, start);
        if crate::time::dt_lt_exec(&new_start, &self.end) {
            Ok(Event { start: new_start, end: self.end, name: self.name, id: self.id })
        } else {
            Err(EventError::InvalidStartTime)
        }
    }

    /// Replaces only the date component of the start timestamp.
    /// Fails with `InvalidStartTime` exactly when the recombined start is
    /// not strictly before the current end.
    pub fn set_start_date(self, start: Date) -> (r: Result<Event, EventError>)
        requires
            self.valid(),
            start.wf(),
        ensures
            (match r {
                Ok(e) => {
                    &&& dt_lt((DateTime { date: start, time: self@.start.time }), self@.end)
                    &&& e@.start == (DateTime { date: start, time: self@.start.time })
                    &&& e@.end == self@.end
                    &&& e@.name == self@.name
                    &&& e@.id == self@.id
                    &&& e.valid()
                },
                Err(err) => {
                    &&& !dt_lt((DateTime { date: start, time: self@.start.time }), self@.end)
                    &&& err == EventError::InvalidStartTime
                },
            }),
    {
        let new_start = DateTime::new(start, self.start.time);
        if crate::time::dt_lt_exec(&new_start, &self.end) {
            Ok(Event { start: new_start, end: self.end, name: self.name, id: self.id })
        } else {
            Err(EventError::InvalidStartTime)
        }
    }

    /// Replaces the end timestamp, keeping start, name and identifier.
    /// Fails with `InvalidEndTime` exactly when the current start is not
    /// strictly before the new end.
    pub fn set_end(self, end: DateTime) -> (r: Result<Event, EventError>)
        requires
            self.valid(),
            end.wf(),
        ensures
            (match r {
                Ok(e) => {
                    &&& dt_lt(self@.start, end)
                    &&& e@.start == self@.start
                    &&& e@.end == end
                    &&& e@.name == self@.name
                    &&& e@.id == self@.id
                    &&& e.valid()
                },
                Err(err) => !dt_lt(self@.start, end) && err == EventError::InvalidEndTime,
            }),
    {
        if crate::time::dt_lt_exec(&self.start, &end) {
            Ok(Event { start: self.start, end, name: self.name, id: self.id })
        } else {
            Err(EventError::InvalidEndTime)
        }
    }

    /// Replaces only the time-of-day component of the end timestamp.
    /// Fails with `InvalidEndTime` exactly when the current start is not
    /// strictly before the recombined end.
    pub fn set_end_time(self, end: Time) -> (r: Result<Event, EventError>)
        requires
            self.valid(),
            end.wf(),
        ensures
            (match r {
                Ok(e) => {
                    &&& dt_lt(self@.start, (DateTime { date: self@.end.date, time: end }))
                    &&& e@.start == self@.start
                    &&& e@.end == (DateTime { date: self@.end.date, time: end })
                    &&& e@.name == self@.name
                    &&& e@.id == self@.id
                    &&& e.valid()
                },
                Err(err) => {
                    &&& !dt_lt(self@.start, (DateTime { date: self@.end.date, time: end }))
                    &&& err == EventError::InvalidEndTime
                },
            }),
    {
        let new_end = DateTime::new(self.end.date, end);
        if crate::time::dt_lt_exec(&self.start, &new_end) {
            Ok(Event { start: self.start, end: new_end, name: self.name, id: self.id })
        } else {
            Err(EventError::InvalidEndTime)
        }
    }

    /// Replaces only the date component of the end timestamp.
    /// Fails with `InvalidEndTime` exactly when the current start is not
    /// strictly before the recombined end.
    pub fn set_end_date(self, end: Date) -> (r: Result<Event, EventError>)
        requires
            self.valid(),
            end.wf(),
        ensures
            (match r {
                Ok(e) => {
                    &&& dt_lt(self@.start, (DateTime { date: end, time: self@.end.time }))
                    &&& e@.start == self@.start
                    &&& e@.end == (DateTime { date: end, time: self@.end.time })
                    &&& e@.name == self@.name
                    &&& e@.id == self@.id
                    &&& e.valid()
                },
                Err(err) => {
                    &&& !dt_lt(self@.start, (DateTime { date: end, time: self@.end.time }))
                    &&& err == EventError::InvalidEndTime
                },
            }),
    {
        let new_end = DateTime::new(end, self.end.time);
        if crate::time::dt_lt_exec(&self.start, &new_end) {
            Ok(Event { start: self.start, end: new_end, name: self.name, id: self.id })
        } else {
            Err(EventError::InvalidEndTime)
        }
    }

    /// Renders the event in its serialized form: a JSON object with the
    /// string fields `start`, `end`, `name` and `id`, in that order, with
    /// timestamps as `YYYY-MM-DDTHH:MM:SS` and the identifier in its
    /// canonical hyphenated hexadecimal form. Pure: equal events always
    /// render to equal text.
    pub fn serialize(&self) -> (r: String)
        ensures
            r@ == crate::render::serial_text(self@),
    {
        let mut s = String::new();
        s.append("{\"start\":\"");
        crate::render::push_dt_text(&mut s, &self.start);
        s.append("\",\"end\":\"");
        crate::render::push_dt_text(&mut s, &self.end);
        s.append("\",\"name\":\"");
        crate::render::push_json_escaped(&mut s, self.name.as_str());
        s.append("\",\"id\":\"");
        crate::render::push_uuid_text(&mut s, self.id);
        s.append("\"}");
        proof {
            assert(s@ =~= crate::render::serial_text(self@));
        }
        s
    }

    /// Replaces the name in place. The name carries no invariant, so this
    /// never fails; the timestamps and the identifier are unchanged.
    pub fn set_name(&mut self, new_name: String)
        ensures
            final(self)@.start == old(self)@.start,
            final(self)@.end == old(self)@.end,
            final(self)@.id == old(self)@.id,
            final(self)@.name == new_name@,
    {
        self.name = new_name;
    }
}

} // verus!
