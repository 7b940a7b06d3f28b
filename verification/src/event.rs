use vstd::prelude::*;

use crate::duration::{duration_value, Duration, DurationView};
use crate::property::{find_first_value, first_match_value, prop_views, Property, PropertyView};
use crate::zone::Zone;

verus! {

/// An event as a whole-document scan sees it: its time span and its name.
/// One is only materialized when the record supplied both.
pub struct Event {
    pub duration: Duration,
    pub name: String,
}

/// Ghost mirror of `Event`.
pub ghost struct EventView {
    pub duration: DurationView,
    pub name: Seq<char>,
}

impl View for Event {
    type V = EventView;

    open spec fn view(&self) -> EventView {
        EventView { duration: self.duration@, name: self.name@ }
    }
}

/// The event a property list describes: its span from the last `dtstart`
/// and `dtend`, its name from the first `summary`. A record missing its
/// span or its name describes no event: it is dropped silently.
pub open spec fn event_value(props: Seq<PropertyView>) -> Option<EventView> {
    match duration_value(props) {
        Some(d) => match first_match_value(props, "summary"@) {
            Some(n) => Some(EventView { duration: d, name: n }),
            None => None,
        },
        None => None,
    }
}

impl Event {
    /// The event the properties describe in the given zone, if its span
    /// resolves and a name is present.
    pub fn try_from_properties(properties: &Vec<Property>, tz: &Zone) -> (r: Option<Event>)
        ensures
            match r {
                Some(e) => event_value(prop_views(properties@)) == Some(e@),
                None => event_value(prop_views(properties@)) is None,
            },
    {
        let name = match find_first_value(properties, "summary") {
            Some(n) => n,
            None => {
                return None;
            },
        };
        match Duration::try_from_properties(properties, tz) {
            Some(duration) => Some(Event { duration, name }),
            None => None,
        }
    }
}

} // verus!
