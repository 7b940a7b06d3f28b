use vstd::prelude::*;

use crate::property::{find_last_value, last_value, prop_views, Property, PropertyView};
use crate::zone::{zone_id_of, Zone};

verus! {

/// The calendar-level timezone a property list declares: the value of the
/// last `x-wr-timezone` property, resolved against the timezone database.
pub open spec fn calendar_timezone(props: Seq<PropertyView>) -> Option<Seq<char>> {
    match last_value(props, "x-wr-timezone"@) {
        Some(v) => zone_id_of(v),
        None => None,
    }
}

/// The zone the calendar's own properties declare, if any resolves.
pub fn get_timezone(calendar: &Vec<Property>) -> (r: Option<Zone>)
    ensures
        match r {
            Some(z) => calendar_timezone(prop_views(calendar@)) == Some(z@),
            None => calendar_timezone(prop_views(calendar@)) is None,
        },
{
    match find_last_value(calendar, "x-wr-timezone") {
        Some(raw) => Zone::parse(raw.as_str()),
        None => None,
    }
}

} // verus!
