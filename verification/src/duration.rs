use vstd::prelude::*;

use crate::property::{find_last_value, last_value, prop_views, Property, PropertyView};
use crate::timestamp::{parse_timestamp, timestamp_value};
use crate::zone::Zone;

verus! {

/// A time span from `start` (inclusive) to `end` (exclusive), in seconds
/// since the epoch. `start <= end` is not enforced: an inverted span simply
/// contains no instant.
pub struct Duration {
    pub start: i64,
    end: i64,
}

/// Ghost mirror of `Duration`.
pub ghost struct DurationView {
    pub start: int,
    pub end: int,
}

impl View for Duration {
    type V = DurationView;

    closed spec fn view(&self) -> DurationView {
        DurationView { start: self.start as int, end: self.end as int }
    }
}

/// The span a property list describes: the last `dtstart` and the last
/// `dtend` value, each resolved as a date-time token; a missing or
/// unresolvable end leaves no span.
pub open spec fn duration_value(props: Seq<PropertyView>) -> Option<DurationView> {
    match last_value(props, "dtstart"@) {
        Some(sv) => match timestamp_value(sv) {
            Some(s) => match last_value(props, "dtend"@) {
                Some(ev) => match timestamp_value(ev) {
                    Some(e) => Some(DurationView { start: s, end: e }),
                    None => None,
                },
                None => None,
            },
            None => None,
        },
        None => None,
    }
}

impl Duration {
    pub fn new(start: i64, end: i64) -> (r: Self)
        ensures
            r@ == (DurationView { start: start as int, end: end as int }),
    {
        Self { start, end }
    }

    /// Whether the instant lies within the span: the start is inclusive, the
    /// end exclusive.
    pub fn contains(&self, time: &i64) -> (r: bool)
        ensures
            r == (self@.start <= *time < self@.end),
    {
        self.start <= *time && *time < self.end
    }

    /// The span of the record the properties describe. The zone names the
    /// wall clock the record belongs to; the tokens are read as UTC-origin
    /// instants, which the zone does not shift.
    pub fn try_from_properties(properties: &Vec<Property>, tz: &Zone) -> (r: Option<Duration>)
        ensures
            match r {
                Some(d) => duration_value(prop_views(properties@)) == Some(d@),
                None => duration_value(prop_views(properties@)) is None,
            },
    {
        let _ = tz;
        let start_raw = match find_last_value(properties, "dtstart") {
            Some(v) => v,
            None => {
                return None;
            },
        };
        let end_raw = match find_last_value(properties, "dtend") {
            Some(v) => v,
            None => {
                return None;
            },
        };
        let start = match parse_timestamp(start_raw.as_str()) {
            Some(v) => v,
            None => {
                return None;
            },
        };
        let end = match parse_timestamp(end_raw.as_str()) {
            Some(v) => v,
            None => {
                return None;
            },
        };
        Some(Duration::new(start, end))
    }
}

} // verus!
