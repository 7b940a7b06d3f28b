use vstd::prelude::*;
use vstd::string::StrSliceExecFns;

verus! {

/// One tokenized feed line: a case-normalized key and, where the raw line
/// held a colon, everything after the first colon, kept as-is.
pub struct Line {
    pub key: String,
    pub value: Option<String>,
}

/// Ghost mirror of `Line`, used by the contracts.
pub ghost struct LineView {
    pub key: Seq<char>,
    pub value: Option<Seq<char>>,
}

impl View for Line {
    type V = LineView;

    open spec fn view(&self) -> LineView {
        LineView {
            key: self.key@,
            value: match self.value {
                Some(v) => Some(v@),
                None => None,
            },
        }
    }
}

/// ASCII-lowercases one character; anything outside `A`..`Z` is unchanged.
pub open spec fn lower_char(c: char) -> char {
    if 65 <= c as u32 && c as u32 <= 90 {
        (((c as u32) + 32) as u8) as char
    } else {
        c
    }
}

/// ASCII-lowercases a character sequence.
pub open spec fn lower(s: Seq<char>) -> Seq<char> {
    s.map_values(|c: char| lower_char(c))
}

/// Index of the first colon in `s`, if any.
pub open spec fn find_colon(s: Seq<char>) -> Option<int>
    decreases s.len(),
{
    if s.len() == 0 {
        None
    } else if s[0] == ':' {
        Some(0)
    } else {
        match find_colon(s.drop_first()) {
            Some(i) => Some(i + 1),
            None => None,
        }
    }
}

/// What tokenizing a raw line yields: split on the first colon only; the key
/// (before the colon) is lowercased, the value (after it) is untouched. A
/// line with no colon is all key and carries no value.
pub open spec fn tokenize(s: Seq<char>) -> LineView {
    match find_colon(s) {
        Some(i) => LineView { key: lower(s.take(i)), value: Some(s.skip(i + 1)) },
        None => LineView { key: lower(s), value: None },
    }
}

proof fn lemma_find_colon_none(s: Seq<char>)
    requires
        forall|j: int| 0 <= j < s.len() ==> s[j] != ':',
    ensures
        find_colon(s) is None,
    decreases s.len(),
{
    if s.len() > 0 {
        assert(forall|j: int| 0 <= j < s.drop_first().len() ==> s.drop_first()[j] == s[j + 1]);
        lemma_find_colon_none(s.drop_first());
    }
}

proof fn lemma_find_colon_at(s: Seq<char>, i: int)
    requires
        0 <= i < s.len(),
        s[i] == ':',
        forall|j: int| 0 <= j < i ==> s[j] != ':',
    ensures
        find_colon(s) == Some(i),
    decreases i,
{
    if i > 0 {
        assert(forall|j: int| 0 <= j < s.drop_first().len() ==> s.drop_first()[j] == s[j + 1]);
        lemma_find_colon_at(s.drop_first(), i - 1);
    }
}

/// Relies on `String::push`: appends the given character to the end of the
/// string.
#[verifier::external_body]
fn push_char(s: &mut String, c: char)
    ensures
        final(s)@ == old(s)@.push(c),
{
    s.push(c);
}

/// Character-wise string equality.
pub fn str_eq(a: &str, b: &str) -> (r: bool)
    ensures
        r == (a@ == b@),
{
    let alen = a.unicode_len();
    let blen = b.unicode_len();
    if alen != blen {
        return false;
    }
    let mut i: usize = 0;
    while i < alen
        invariant
            alen == a@.len(),
            blen == b@.len(),
            alen == blen,
            i <= alen,
            forall|j: int| 0 <= j < i ==> a@[j] == b@[j],
        decreases alen - i,
    {
        if a.get_char(i) != b.get_char(i) {
            return false;
        }
        i += 1;
    }
    proof {
        assert(a@ =~= b@);
    }
    true
}

/// Compares text case-insensitively against an already-lowercase key.
pub fn eq_ignore_case(a: &str, b: &str) -> (r: bool)
    ensures
        r == (lower(a@) == b@),
{
    proof {
        assert(forall|j: int| 0 <= j < a@.len() ==> lower(a@)[j] == lower_char(a@[j]));
    }
    let alen = a.unicode_len();
    let blen = b.unicode_len();
    if alen != blen {
        proof {
            assert(lower(a@).len() == a@.len());
        }
        return false;
    }
    let mut i: usize = 0;
    while i < alen
        invariant
            alen == a@.len(),
            blen == b@.len(),
            alen == blen,
            i <= alen,
            forall|j: int| 0 <= j < i ==> lower_char(a@[j]) == b@[j],
        decreases alen - i,
    {
        if lower_char_exec(a.get_char(i)) != b.get_char(i) {
            proof {
                assert(lower(a@)[i as int] != b@[i as int]);
            }
            return false;
        }
        i += 1;
    }
    proof {
        assert(lower(a@) =~= b@);
    }
    true
}

pub(crate) fn lower_char_exec(c: char) -> (r: char)
    ensures
        r == lower_char(c),
{
    let u = c as u32;
    if 65 <= u && u <= 90 {
        ((u + 32) as u8) as char
    } else {
        c
    }
}

fn find_colon_exec(s: &str) -> (r: Option<usize>)
    ensures
        match r {
            Some(i) => i < s@.len() && find_colon(s@) == Some(i as int),
            None => find_colon(s@) is None,
        },
{
    let len = s.unicode_len();
    let mut i: usize = 0;
    while i < len
        invariant
            len == s@.len(),
            i <= len,
            forall|j: int| 0 <= j < i ==> s@[j] != ':',
        decreases len - i,
    {
        if s.get_char(i) == ':' {
            proof {
                lemma_find_colon_at(s@, i as int);
            }
            return Some(i);
        }
        i += 1;
    }
    proof {
        lemma_find_colon_none(s@);
    }
    None
}

fn lower_prefix(s: &str, end: usize) -> (r: String)
    requires
        end <= s@.len(),
    ensures
        r@ == lower(s@.take(end as int)),
{
    let mut out = String::new();
    let mut j: usize = 0;
    while j < end
        invariant
            end <= s@.len(),
            j <= end,
            out@ == lower(s@.take(j as int)),
        decreases end - j,
    {
        let c = lower_char_exec(s.get_char(j));
        push_char(&mut out, c);
        proof {
            assert(lower(s@.take(j as int + 1)) =~= lower(s@.take(j as int)).push(
                lower_char(s@[j as int]),
            ));
        }
        j += 1;
    }
    out
}

impl Line {
    /// Tokenizes one raw feed line: splits on the first colon only (values
    /// may themselves contain colons and are not split further); the key is
    /// lowercased for case-insensitive matching; a line with no colon yields
    /// the whole line as key and no value. Any input is representable: there
    /// is no error case.
    pub fn from_str(s: &str) -> (r: Line)
        ensures
            r@ == tokenize(s@),
    {
        let len = s.unicode_len();
        match find_colon_exec(s) {
            Some(i) => {
                let key = lower_prefix(s, i);
                let value = s.substring_char(i + 1, len).to_owned();
                proof {
                    assert(value@ =~= s@.skip(i as int + 1));
                }
                Line { key, value: Some(value) }
            },
            None => {
                let key = lower_prefix(s, len);
                proof {
                    assert(s@.take(len as int) =~= s@);
                }
                Line { key, value: None }
            },
        }
    }
}

} // verus!
