use vstd::prelude::*;
use vstd::string::StrSliceExecFns;

use crate::line::{lower, lower_char, lower_char_exec, str_eq, Line, LineView};
use crate::timestamp::{parse_timestamp, timestamp_value};
use crate::zone::{zone_id_of, Zone};

verus! {

broadcast use vstd::string::group_string_axioms;

/// A completed calendar event: materialized only once a record has supplied
/// all four fields.
pub struct Event {
    pub name: String,
    pub timezone: Zone,
    pub start: i64,
    pub end: i64,
}

/// Ghost mirror of `Event`: `start` and `end` are instants in seconds since
/// the epoch, `timezone` the canonical zone identifier captured when the
/// record opened.
pub ghost struct EventView {
    pub name: Seq<char>,
    pub timezone: Seq<char>,
    pub start: int,
    pub end: int,
}

impl View for Event {
    type V = EventView;

    open spec fn view(&self) -> EventView {
        EventView {
            name: self.name@,
            timezone: self.timezone@,
            start: self.start as int,
            end: self.end as int,
        }
    }
}

/// The accumulator for one in-progress record, owned by the parser between a
/// record-begin and a record-end marker.
pub struct PartialEvent {
    pub name: Option<String>,
    pub timezone: Option<Zone>,
    pub start: Option<i64>,
    pub end: Option<i64>,
}

/// Ghost mirror of `PartialEvent`.
pub ghost struct PartialEventView {
    pub name: Option<Seq<char>>,
    pub timezone: Option<Seq<char>>,
    pub start: Option<int>,
    pub end: Option<int>,
}

impl View for PartialEvent {
    type V = PartialEventView;

    open spec fn view(&self) -> PartialEventView {
        PartialEventView {
            name: match self.name {
                Some(n) => Some(n@),
                None => None,
            },
            timezone: match self.timezone {
                Some(z) => Some(z@),
                None => None,
            },
            start: match self.start {
                Some(v) => Some(v as int),
                None => None,
            },
            end: match self.end {
                Some(v) => Some(v as int),
                None => None,
            },
        }
    }
}

/// The calendar state machine: tracks the calendar-level timezone and the
/// one record that may currently be open.
pub struct Parser {
    current_partial_event: Option<PartialEvent>,
    current_timezone: Option<Zone>,
}

/// Ghost mirror of `Parser`.
pub ghost struct ParserView {
    pub partial: Option<PartialEventView>,
    pub timezone: Option<Seq<char>>,
}

impl View for Parser {
    type V = ParserView;

    closed spec fn view(&self) -> ParserView {
        ParserView {
            partial: match self.current_partial_event {
                Some(pe) => Some(pe@),
                None => None,
            },
            timezone: match self.current_timezone {
                Some(z) => Some(z@),
                None => None,
            },
        }
    }
}

/// The state a fresh parser starts in: no open record, no timezone yet.
pub open spec fn initial_parser() -> ParserView {
    ParserView { partial: None, timezone: None }
}

/// Whether a record-delimiter value names an event record, compared
/// case-insensitively.
pub open spec fn is_vevent_value(v: Seq<char>) -> bool {
    lower(v) == "vevent"@
}

/// Whether the accumulator has collected all four required fields.
pub open spec fn complete(pe: PartialEventView) -> bool {
    &&& pe.name is Some
    &&& pe.timezone is Some
    &&& pe.start is Some
    &&& pe.end is Some
}

/// The event a closing record yields: one exists exactly when the
/// accumulator is complete; a partial record yields nothing.
pub open spec fn finalize(pe: PartialEventView) -> Option<EventView> {
    if complete(pe) {
        Some(
            EventView {
                name: pe.name.unwrap(),
                timezone: pe.timezone.unwrap(),
                start: pe.start.unwrap(),
                end: pe.end.unwrap(),
            },
        )
    } else {
        None
    }
}

/// The transition the parser makes on one tokenized line: the successor
/// state, and the event emitted (only a complete record closing emits one).
pub open spec fn spec_step(p: ParserView, l: LineView) -> (ParserView, Option<EventView>) {
    match l.value {
        Some(v) => {
            if l.key == "x-wr-timezone"@ {
                (
                    match zone_id_of(v) {
                        Some(z) => ParserView { timezone: Some(z), ..p },
                        None => p,
                    },
                    None,
                )
            } else if l.key == "begin"@ && is_vevent_value(v) {
                (
                    ParserView {
                        partial: Some(
                            PartialEventView {
                                name: None,
                                timezone: p.timezone,
                                start: None,
                                end: None,
                            },
                        ),
                        ..p
                    },
                    None,
                )
            } else if l.key == "end"@ && is_vevent_value(v) {
                match p.partial {
                    Some(pe) => (ParserView { partial: None, ..p }, finalize(pe)),
                    None => (p, None),
                }
            } else if l.key == "dtstart"@ {
                match p.partial {
                    Some(pe) => if pe.timezone is Some {
                        match timestamp_value(v) {
                            Some(ts) => (
                                ParserView { partial: Some(PartialEventView { start: Some(ts), ..pe }), ..p },
                                None,
                            ),
                            None => (p, None),
                        }
                    } else {
                        (p, None)
                    },
                    None => (p, None),
                }
            } else if l.key == "dtend"@ {
                match p.partial {
                    Some(pe) => if pe.timezone is Some {
                        match timestamp_value(v) {
                            Some(ts) => (
                                ParserView { partial: Some(PartialEventView { end: Some(ts), ..pe }), ..p },
                                None,
                            ),
                            None => (p, None),
                        }
                    } else {
                        (p, None)
                    },
                    None => (p, None),
                }
            } else if l.key == "summary"@ {
                match p.partial {
                    Some(pe) => (
                        ParserView { partial: Some(PartialEventView { name: Some(v), ..pe }), ..p },
                        None,
                    ),
                    None => (p, None),
                }
            } else {
                (p, None)
            }
        },
        None => (p, None),
    }
}

/// Case-insensitive comparison of a delimiter value against the event-record
/// marker.
fn is_vevent(v: &str) -> (r: bool)
    ensures
        r == is_vevent_value(v@),
{
    proof {
        reveal_strlit("vevent");
        assert(forall|j: int| 0 <= j < v@.len() ==> lower(v@)[j] == lower_char(v@[j]));
    }
    let len = v.unicode_len();
    if len != 6 {
        proof {
            assert(lower(v@).len() == v@.len());
            assert("vevent"@.len() == 6);
        }
        return false;
    }
    let ok = lower_char_exec(v.get_char(0)) == 'v' && lower_char_exec(v.get_char(1)) == 'e'
        && lower_char_exec(v.get_char(2)) == 'v' && lower_char_exec(v.get_char(3)) == 'e'
        && lower_char_exec(v.get_char(4)) == 'n' && lower_char_exec(v.get_char(5)) == 't';
    if ok {
        proof {
            assert(lower(v@) =~= "vevent"@);
        }
        true
    } else {
        proof {
            if lower(v@) == "vevent"@ {
                assert(lower(v@)[0] == 'v');
                assert(lower(v@)[1] == 'e');
                assert(lower(v@)[2] == 'v');
                assert(lower(v@)[3] == 'e');
                assert(lower(v@)[4] == 'n');
                assert(lower(v@)[5] == 't');
                assert(false);
            }
        }
        false
    }
}

impl Event {
    /// Materializes a completed record. Succeeds exactly when all four
    /// fields were collected; a record missing any field is refused.
    pub fn try_from(event: &PartialEvent) -> (r: Result<Event, &'static str>)
        ensures
            match r {
                Ok(e) => finalize(event@) == Some(e@),
                Err(m) => finalize(event@) is None && m@ == "Event is missing required fields"@,
            },
    {
        match event {
            PartialEvent {
                name: Some(name),
                timezone: Some(timezone),
                start: Some(start),
                end: Some(end),
            } => Ok(
                Event {
                    name: name.clone(),
                    timezone: timezone.clone(),
                    start: *start,
                    end: *end,
                },
            ),
            _ => Err("Event is missing required fields"),
        }
    }
}

impl Default for Parser {
    fn default() -> (r: Parser)
        ensures
            r@ == initial_parser(),
    {
        Parser { current_partial_event: None, current_timezone: None }
    }
}

impl Parser {
    /// A parser in its initial state: no open record, no timezone.
    pub fn new() -> (r: Self)
        ensures
            r@ == initial_parser(),
    {
        Parser::default()
    }

    /// Consumes one tokenized line, in arrival order, and steps the state
    /// machine: the new state and the emitted event are exactly what
    /// `spec_step` yields for the old state and the line.
    pub fn process_line(&mut self, line: &Line) -> (r: Option<Event>)
        ensures
            final(self)@ == spec_step(old(self)@, line@).0,
            match spec_step(old(self)@, line@).1 {
                Some(ev) => r is Some && r.unwrap()@ == ev,
                None => r is None,
            },
    {
        match &line.value {
            Some(value) => {
                if str_eq(line.key.as_str(), "x-wr-timezone") {
                    match Zone::parse(value.as_str()) {
                        Some(z) => {
                            self.current_timezone = Some(z);
                        },
                        None => {},
                    }
                    None
                } else if str_eq(line.key.as_str(), "begin") && is_vevent(value.as_str()) {
                    let tz_copy: Option<Zone> = match &self.current_timezone {
                        Some(z) => Some(z.clone()),
                        None => None,
                    };
                    self.current_partial_event = Some(
                        PartialEvent { name: None, timezone: tz_copy, start: None, end: None },
                    );
                    None
                } else if str_eq(line.key.as_str(), "end") && is_vevent(value.as_str()) {
                    let finished = match &self.current_partial_event {
                        Some(event) => match Event::try_from(event) {
                            Ok(e) => Some(e),
                            Err(_) => None,
                        },
                        None => None,
                    };
                    self.current_partial_event = None;
                    finished
                } else if str_eq(line.key.as_str(), "dtstart") {
                    let pe_opt = self.current_partial_event.take();
                    match pe_opt {
                        Some(mut event) => {
                            if event.timezone.is_some() {
                                match parse_timestamp(value.as_str()) {
                                    Some(ts) => {
                                        event.start = Some(ts);
                                    },
                                    None => {},
                                }
                            }
                            self.current_partial_event = Some(event);
                        },
                        None => {},
                    }
                    None
                } else if str_eq(line.key.as_str(), "dtend") {
                    let pe_opt = self.current_partial_event.take();
                    match pe_opt {
                        Some(mut event) => {
                            if event.timezone.is_some() {
                                match parse_timestamp(value.as_str()) {
                                    Some(ts) => {
                                        event.end = Some(ts);
                                    },
                                    None => {},
                                }
                            }
                            self.current_partial_event = Some(event);
                        },
                        None => {},
                    }
                    None
                } else if str_eq(line.key.as_str(), "summary") {
                    let pe_opt = self.current_partial_event.take();
                    match pe_opt {
                        Some(mut event) => {
                            event.name = Some(value.clone());
                            self.current_partial_event = Some(event);
                        },
                        None => {},
                    }
                    None
                } else {
                    None
                }
            },
            None => None,
        }
    }
}

/// An event record missing any of its four fields at close is dropped
/// silently: the end marker emits nothing, clears the accumulator, and no
/// error surfaces.
pub proof fn lemma_incomplete_record_dropped(p: ParserView, l: LineView)
    requires
        l.key == "end"@,
        l.value matches Some(v) && is_vevent_value(v),
        p.partial matches Some(pe) && !complete(pe),
    ensures
        spec_step(p, l).1 is None,
        spec_step(p, l).0.partial is None,
{
    reveal_strlit("end");
    reveal_strlit("x-wr-timezone");
    reveal_strlit("begin");
    assert("end"@.len() == 3);
    assert("x-wr-timezone"@.len() == 13);
    assert("begin"@.len() == 5);
}

} // verus!
