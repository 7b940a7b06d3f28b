use vstd::prelude::*;

use crate::line::lower;

verus! {

/// One named property of a calendar or of an event record, as a whole
/// document's reader delivers it: a name and an optional value.
pub struct Property {
    pub name: String,
    pub value: Option<String>,
}

/// Ghost mirror of `Property`.
pub ghost struct PropertyView {
    pub name: Seq<char>,
    pub value: Option<Seq<char>>,
}

impl View for Property {
    type V = PropertyView;

    open spec fn view(&self) -> PropertyView {
        PropertyView {
            name: self.name@,
            value: match self.value {
                Some(v) => Some(v@),
                None => None,
            },
        }
    }
}

/// Views of a property list.
pub open spec fn prop_views(props: Seq<Property>) -> Seq<PropertyView> {
    props.map_values(|p: Property| p@)
}

/// Whether a property's name matches an (already lowercase) key,
/// case-insensitively.
pub open spec fn name_matches(p: PropertyView, key: Seq<char>) -> bool {
    lower(p.name) == key
}

/// The value of the last property whose name matches `key`: later matches
/// override earlier ones, and a matching property without a value clears it.
pub open spec fn last_value(props: Seq<PropertyView>, key: Seq<char>) -> Option<Seq<char>>
    decreases props.len(),
{
    if props.len() == 0 {
        None
    } else if name_matches(props.last(), key) {
        props.last().value
    } else {
        last_value(props.drop_last(), key)
    }
}

/// The value of the first property whose name matches `key`.
pub open spec fn first_match_value(props: Seq<PropertyView>, key: Seq<char>) -> Option<Seq<char>>
    decreases props.len(),
{
    if props.len() == 0 {
        None
    } else if name_matches(props.first(), key) {
        props.first().value
    } else {
        first_match_value(props.drop_first(), key)
    }
}

proof fn lemma_first_match_at(props: Seq<PropertyView>, key: Seq<char>, i: int)
    requires
        0 <= i < props.len(),
        name_matches(props[i], key),
        forall|j: int| 0 <= j < i ==> !name_matches(props[j], key),
    ensures
        first_match_value(props, key) == props[i].value,
    decreases i,
{
    if i > 0 {
        assert(forall|j: int|
            0 <= j < props.drop_first().len() ==> props.drop_first()[j] == props[j + 1]);
        lemma_first_match_at(props.drop_first(), key, i - 1);
    }
}

proof fn lemma_first_match_none(props: Seq<PropertyView>, key: Seq<char>)
    requires
        forall|j: int| 0 <= j < props.len() ==> !name_matches(props[j], key),
    ensures
        first_match_value(props, key) is None,
    decreases props.len(),
{
    if props.len() > 0 {
        assert(forall|j: int|
            0 <= j < props.drop_first().len() ==> props.drop_first()[j] == props[j + 1]);
        lemma_first_match_none(props.drop_first(), key);
    }
}

/// The value of the last property matching the lowercase `key`, cloned.
pub fn find_last_value(props: &Vec<Property>, key: &str) -> (r: Option<String>)
    ensures
        match r {
            Some(v) => last_value(prop_views(props@), key@) == Some(v@),
            None => last_value(prop_views(props@), key@) is None,
        },
{
    let ghost pv = prop_views(props@);
    let mut found: Option<String> = None;
    let mut i: usize = 0;
    proof {
        assert(pv.take(0) =~= Seq::<PropertyView>::empty());
    }
    while i < props.len()
        invariant
            i <= props@.len(),
            pv == prop_views(props@),
            pv.len() == props@.len(),
            match found {
                Some(v) => last_value(pv.take(i as int), key@) == Some(v@),
                None => last_value(pv.take(i as int), key@) is None,
            },
        decreases props@.len() - i,
    {
        proof {
            assert(pv[i as int] == props@[i as int]@);
            assert(pv.take(i as int + 1).drop_last() =~= pv.take(i as int));
            assert(pv.take(i as int + 1).last() == pv[i as int]);
        }
        if crate::line::eq_ignore_case(props[i].name.as_str(), key) {
            found = match &props[i].value {
                Some(v) => Some(v.clone()),
                None => None,
            };
        }
        i += 1;
    }
    proof {
        assert(pv.take(props@.len() as int) =~= pv);
    }
    found
}

/// The value of the first property matching the lowercase `key`, cloned.
pub fn find_first_value(props: &Vec<Property>, key: &str) -> (r: Option<String>)
    ensures
        match r {
            Some(v) => first_match_value(prop_views(props@), key@) == Some(v@),
            None => first_match_value(prop_views(props@), key@) is None,
        },
{
    let ghost pv = prop_views(props@);
    let mut i: usize = 0;
    while i < props.len()
        invariant
            i <= props@.len(),
            pv == prop_views(props@),
            pv.len() == props@.len(),
            forall|j: int| 0 <= j < i ==> !name_matches(pv[j], key@),
        decreases props@.len() - i,
    {
        proof {
            assert(pv[i as int] == props@[i as int]@);
        }
        if crate::line::eq_ignore_case(props[i].name.as_str(), key) {
            proof {
                lemma_first_match_at(pv, key@, i as int);
            }
            return match &props[i].value {
                Some(v) => Some(v.clone()),
                None => None,
            };
        }
        i += 1;
    }
    proof {
        lemma_first_match_none(pv, key@);
    }
    None
}

} // verus!
