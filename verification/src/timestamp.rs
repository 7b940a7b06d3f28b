use vstd::prelude::*;
use vstd::string::StrSliceExecFns;

verus! {

pub open spec fn is_digit(c: char) -> bool {
    48 <= c as u32 && c as u32 <= 57
}

pub open spec fn digit_val(c: char) -> int {
    c as u32 - 48
}

pub open spec fn is_leap_year(y: int) -> bool {
    y % 4 == 0 && (y % 100 != 0 || y % 400 == 0)
}

pub open spec fn days_in_year(y: int) -> int {
    if is_leap_year(y) {
        366
    } else {
        365
    }
}

pub open spec fn days_in_month(y: int, m: int) -> int {
    if m == 2 {
        if is_leap_year(y) {
            29
        } else {
            28
        }
    } else if m == 4 || m == 6 || m == 9 || m == 11 {
        30
    } else {
        31
    }
}

/// Days from 1970-01-01 to January 1 of year `y` (negative before 1970).
pub open spec fn days_before_year(y: int) -> int
    decreases (if y >= 1970 {
        y - 1970
    } else {
        1970 - y
    }),
{
    if y > 1970 {
        days_before_year(y - 1) + days_in_year(y - 1)
    } else if y < 1970 {
        days_before_year(y + 1) - days_in_year(y)
    } else {
        0
    }
}

/// Days from the first day of year `y` to the first day of its month `m`.
pub open spec fn days_before_month(y: int, m: int) -> int
    decreases (if m >= 1 {
        m
    } else {
        0
    }),
{
    if m <= 1 {
        0
    } else {
        days_before_month(y, m - 1) + days_in_month(y, m - 1)
    }
}

/// Days between 1970-01-01 and the civil date `y`-`m`-`d`.
pub open spec fn days_from_civil(y: int, m: int, d: int) -> int {
    days_before_year(y) + days_before_month(y, m) + (d - 1)
}

/// Whether the six parsed fields name a real calendar date and time of day.
pub open spec fn valid_civil(y: int, m: int, d: int, h: int, mi: int, s: int) -> bool {
    &&& 1 <= m <= 12
    &&& 1 <= d <= days_in_month(y, m)
    &&& 0 <= h < 24
    &&& 0 <= mi < 60
    &&& 0 <= s < 60
}

/// Seconds since 1970-01-01 00:00:00 UTC of the civil instant, read as UTC.
pub open spec fn epoch_seconds(y: int, m: int, d: int, h: int, mi: int, s: int) -> int {
    days_from_civil(y, m, d) * 86400 + h * 3600 + mi * 60 + s
}

/// Drops every trailing UTC marker `Z` from the token.
pub open spec fn strip_utc_marker(s: Seq<char>) -> Seq<char>
    decreases s.len(),
{
    if s.len() > 0 && s.last() == 'Z' {
        strip_utc_marker(s.drop_last())
    } else {
        s
    }
}

pub open spec fn all_digits(s: Seq<char>, from: int, to: int) -> bool {
    forall|j: int| from <= j < to ==> is_digit(s[j])
}

/// Shape of a date-time token once the UTC marker is stripped: four year
/// digits, two month digits, two day digits, a literal `T`, then two digits
/// each for hour, minute and second.
pub open spec fn timestamp_shape(t: Seq<char>) -> bool {
    &&& t.len() == 15
    &&& t[8] == 'T'
    &&& all_digits(t, 0, 8)
    &&& all_digits(t, 9, 15)
}

pub open spec fn num2(t: Seq<char>, i: int) -> int {
    digit_val(t[i]) * 10 + digit_val(t[i + 1])
}

pub open spec fn num4(t: Seq<char>, i: int) -> int {
    digit_val(t[i]) * 1000 + digit_val(t[i + 1]) * 100 + digit_val(t[i + 2]) * 10 + digit_val(
        t[i + 3],
    )
}

/// What resolving a raw date-time token yields: strip any trailing UTC
/// marker, read the fixed digit pattern as a naive timestamp, interpret it
/// as UTC, and give the instant as seconds since the epoch. A malformed
/// digit pattern or an impossible date yields nothing.
pub open spec fn timestamp_value(s: Seq<char>) -> Option<int> {
    let t = strip_utc_marker(s);
    if timestamp_shape(t) {
        let y = num4(t, 0);
        let m = num2(t, 4);
        let d = num2(t, 6);
        let h = num2(t, 9);
        let mi = num2(t, 11);
        let se = num2(t, 13);
        if valid_civil(y, m, d, h, mi, se) {
            Some(epoch_seconds(y, m, d, h, mi, se))
        } else {
            None
        }
    } else {
        None
    }
}

fn is_leap_year_exec(y: i64) -> (r: bool)
    requires
        0 <= y <= 9999,
    ensures
        r == is_leap_year(y as int),
{
    y % 4 == 0 && (y % 100 != 0 || y % 400 == 0)
}

fn days_in_year_exec(y: i64) -> (r: i64)
    requires
        0 <= y <= 9999,
    ensures
        r as int == days_in_year(y as int),
{
    if is_leap_year_exec(y) {
        366
    } else {
        365
    }
}

fn days_in_month_exec(y: i64, m: i64) -> (r: i64)
    requires
        0 <= y <= 9999,
        1 <= m <= 12,
    ensures
        r as int == days_in_month(y as int, m as int),
{
    if m == 2 {
        if is_leap_year_exec(y) {
            29
        } else {
            28
        }
    } else if m == 4 || m == 6 || m == 9 || m == 11 {
        30
    } else {
        31
    }
}

fn days_before_year_exec(y: i64) -> (r: i64)
    requires
        0 <= y <= 9999,
    ensures
        r as int == days_before_year(y as int),
        -722000 <= r <= 2940000,
{
    let mut days: i64 = 0;
    let mut cur: i64 = 1970;
    if y >= 1970 {
        while cur < y
            invariant
                1970 <= y <= 9999,
                1970 <= cur <= y,
                days as int == days_before_year(cur as int),
                0 <= days <= 366 * (cur - 1970),
            decreases y - cur,
        {
            days = days + days_in_year_exec(cur);
            cur = cur + 1;
        }
    } else {
        while cur > y
            invariant
                0 <= y < 1970,
                y <= cur <= 1970,
                days as int == days_before_year(cur as int),
                -366 * (1970 - cur) <= days <= 0,
            decreases cur - y,
        {
            days = days - days_in_year_exec(cur - 1);
            cur = cur - 1;
        }
    }
    days
}

fn days_before_month_exec(y: i64, m: i64) -> (r: i64)
    requires
        0 <= y <= 9999,
        1 <= m <= 12,
    ensures
        r as int == days_before_month(y as int, m as int),
        0 <= r <= 366,
{
    let mut days: i64 = 0;
    let mut cur: i64 = 1;
    while cur < m
        invariant
            0 <= y <= 9999,
            1 <= cur <= m <= 12,
            days as int == days_before_month(y as int, cur as int),
            0 <= days <= 31 * (cur - 1),
        decreases m - cur,
    {
        days = days + days_in_month_exec(y, cur);
        cur = cur + 1;
    }
    days
}

fn digit_at(s: &str, i: usize) -> (r: Option<i64>)
    requires
        i < s@.len(),
    ensures
        match r {
            Some(v) => is_digit(s@[i as int]) && v == digit_val(s@[i as int]) && 0 <= v <= 9,
            None => !is_digit(s@[i as int]),
        },
{
    let u = s.get_char(i) as u32;
    if 48 <= u && u <= 57 {
        Some((u - 48) as i64)
    } else {
        None
    }
}

fn read_num2(s: &str, i: usize) -> (r: Option<i64>)
    requires
        i + 2 <= s@.len() <= usize::MAX,
    ensures
        match r {
            Some(v) => all_digits(s@, i as int, i as int + 2) && v as int == num2(s@, i as int)
                && 0 <= v <= 99,
            None => !all_digits(s@, i as int, i as int + 2),
        },
{
    let d0 = match digit_at(s, i) {
        Some(d) => d,
        None => {
            return None;
        },
    };
    let d1 = match digit_at(s, i + 1) {
        Some(d) => d,
        None => {
            return None;
        },
    };
    Some(d0 * 10 + d1)
}

fn read_num4(s: &str, i: usize) -> (r: Option<i64>)
    requires
        i + 4 <= s@.len() <= usize::MAX,
    ensures
        match r {
            Some(v) => all_digits(s@, i as int, i as int + 4) && v as int == num4(s@, i as int)
                && 0 <= v <= 9999,
            None => !all_digits(s@, i as int, i as int + 4),
        },
{
    let hi = match read_num2(s, i) {
        Some(d) => d,
        None => {
            return None;
        },
    };
    let lo = match read_num2(s, i + 2) {
        Some(d) => d,
        None => {
            return None;
        },
    };
    Some(hi * 100 + lo)
}

/// Resolves one raw date-time token into seconds since the epoch. A token
/// whose digits do not fit the fixed pattern, or name no real date, is
/// unparseable and yields `None`; it never aborts the caller.
pub fn parse_timestamp(s: &str) -> (r: Option<i64>)
    ensures
        match r {
            Some(v) => timestamp_value(s@) == Some(v as int),
            None => timestamp_value(s@) is None,
        },
{
    let len = s.unicode_len();
    let mut e: usize = len;
    proof {
        assert(s@.take(len as int) =~= s@);
    }
    loop
        invariant
            e <= len,
            len == s@.len(),
            strip_utc_marker(s@) == strip_utc_marker(s@.take(e as int)),
        ensures
            e <= len,
            len == s@.len(),
            strip_utc_marker(s@) == s@.take(e as int),
        decreases e,
    {
        if e == 0 {
            break;
        }
        if s.get_char(e - 1) != 'Z' {
            break;
        }
        proof {
            assert(s@.take(e as int).drop_last() =~= s@.take(e as int - 1));
        }
        e = e - 1;
    }
    let ghost t = strip_utc_marker(s@);
    if e != 15 {
        return None;
    }
    proof {
        assert(forall|j: int| 0 <= j < 15 ==> t[j] == s@[j]);
    }
    if s.get_char(8) != 'T' {
        return None;
    }
    let y = match read_num4(s, 0) {
        Some(v) => v,
        None => {
            return None;
        },
    };
    let m = match read_num2(s, 4) {
        Some(v) => v,
        None => {
            return None;
        },
    };
    let d = match read_num2(s, 6) {
        Some(v) => v,
        None => {
            return None;
        },
    };
    let h = match read_num2(s, 9) {
        Some(v) => v,
        None => {
            return None;
        },
    };
    let mi = match read_num2(s, 11) {
        Some(v) => v,
        None => {
            return None;
        },
    };
    let se = match read_num2(s, 13) {
        Some(v) => v,
        None => {
            return None;
        },
    };
    proof {
        assert(all_digits(t, 0, 8));
        assert(all_digits(t, 9, 15));
        assert(timestamp_shape(t));
        assert(num4(t, 0) == num4(s@, 0));
        assert(num2(t, 4) == num2(s@, 4));
        assert(num2(t, 6) == num2(s@, 6));
        assert(num2(t, 9) == num2(s@, 9));
        assert(num2(t, 11) == num2(s@, 11));
        assert(num2(t, 13) == num2(s@, 13));
    }
    if !(1 <= m && m <= 12) {
        return None;
    }
    if !(1 <= d && d <= days_in_month_exec(y, m)) {
        return None;
    }
    if !(h < 24 && mi < 60 && se < 60) {
        return None;
    }
    let days = days_before_year_exec(y) + days_before_month_exec(y, m) + (d - 1);
    Some(days * 86400 + h * 3600 + mi * 60 + se)
}

} // verus!
