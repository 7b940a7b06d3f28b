use vstd::prelude::*;

verus! {

/// A timezone, held by its canonical IANA identifier. Values are only built
/// from identifiers that the timezone database recognises.
pub struct Zone {
    name: String,
}

impl View for Zone {
    type V = Seq<char>;

    closed spec fn view(&self) -> Seq<char> {
        self.name@
    }
}

impl Clone for Zone {
    fn clone(&self) -> (r: Self)
        ensures
            r@ == self@,
    {
        Zone { name: self.name.clone() }
    }
}

/// The canonical IANA identifier that the timezone database resolves the
/// given text to, if it names a zone at all. The lookup is a fixed table
/// compiled into the database, so the outcome depends on the text alone.
pub uninterp spec fn zone_id_of(s: Seq<char>) -> Option<Seq<char>>;

/// Relies on `chrono_tz::Tz::from_str` (a lookup in the compiled-in zone
/// table) to decide whether the text names a zone, and on `chrono_tz::Tz::name`
/// for the matching canonical identifier.
#[verifier::external_body]
fn lookup_zone(s: &str) -> (r: Option<String>)
    ensures
        match r {
            Some(n) => zone_id_of(s@) == Some(n@),
            None => zone_id_of(s@) is None,
        },
{
    match s.parse::<chrono_tz::Tz>() {
        Ok(tz) => Some(tz.name().to_string()),
        Err(_) => None,
    }
}

impl Zone {
    /// Resolves raw text to a zone: the result carries the canonical
    /// identifier when the timezone database knows the text, and is `None`
    /// otherwise.
    pub fn parse(s: &str) -> (r: Option<Zone>)
        ensures
            match r {
                Some(z) => zone_id_of(s@) == Some(z@),
                None => zone_id_of(s@) is None,
            },
    {
        match lookup_zone(s) {
            Some(name) => Some(Zone { name }),
            None => None,
        }
    }

    /// The zone's canonical IANA identifier.
    pub fn name(&self) -> (r: &str)
        ensures
            r@ == self@,
    {
        self.name.as_str()
    }
}

} // verus!
