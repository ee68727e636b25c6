//! Normalizes date and date-time property values to Unix seconds (UTC).
use vstd::prelude::*;
use chrono::Datelike;
use crate::error::ICalError;
use crate::lexer::{Param, ParamV, params_view};
use crate::text::chars_equal;

verus! {

pub open spec fn is_leap(y: int) -> bool {
    (y % 4 == 0 && y % 100 != 0) || y % 400 == 0
}

pub open spec fn days_in_month(y: int, m: int) -> int {
    if m == 2 {
        if is_leap(y) { 29 } else { 28 }
    } else if m == 4 || m == 6 || m == 9 || m == 11 {
        30
    } else {
        31
    }
}

/// A day of the proleptic Gregorian calendar.
pub open spec fn valid_date(y: int, m: int, d: int) -> bool {
    1 <= m <= 12 && 1 <= d <= days_in_month(y, m)
}

/// Days from 1970-01-01 to the given date of the proleptic Gregorian calendar.
pub open spec fn days_from_civil(y: int, m: int, d: int) -> int {
    let yy = if m <= 2 { y - 1 } else { y };
    let era = yy / 400;
    let yoe = yy - era * 400;
    let mp = (m + 9) % 12;
    let doy = (153 * mp + 2) / 5 + d - 1;
    let doe = yoe * 365 + yoe / 4 - yoe / 100 + doy;
    era * 146097 + doe - 719468
}

/// Day number of a date, where January 1 of year 1 is day 1.
pub open spec fn days_from_ce(y: int, m: int, d: int) -> int {
    days_from_civil(y, m, d) + 719163
}

/// Relies on `chrono::NaiveDate::from_ymd_opt`, which gives `None` exactly off
/// the proleptic Gregorian calendar, and on `Datelike::num_days_from_ce`, which
/// counts days with January 1 of year 1 as day 1.
#[verifier::external_body]
fn day_number(year: i32, month: u32, day: u32) -> (r: Option<i32>)
    requires
        0 <= year <= 9999,
    ensures
        r is Some <==> valid_date(year as int, month as int, day as int),
        r is Some ==> r->0 == days_from_ce(year as int, month as int, day as int),
{
    match chrono::NaiveDate::from_ymd_opt(year, month, day) {
        Some(date) => Some(date.num_days_from_ce()),
        None => None,
    }
}

pub open spec fn is_digit(c: char) -> bool {
    '0' <= c && c <= '9'
}

pub open spec fn all_digits(s: Seq<char>) -> bool {
    forall|i: int| 0 <= i < s.len() ==> is_digit(#[trigger] s[i])
}

/// The number written in decimal by `s`.
pub open spec fn num(s: Seq<char>) -> int
    decreases s.len(),
{
    if s.len() == 0 {
        0
    } else {
        num(s.drop_last()) * 10 + (s.last() as int - '0' as int)
    }
}

pub open spec fn pow10(n: nat) -> int
    decreases n,
{
    if n == 0 { 1 } else { 10 * pow10((n - 1) as nat) }
}

proof fn lemma_num_bound(s: Seq<char>)
    requires
        all_digits(s),
    ensures
        0 <= num(s) < pow10(s.len()),
    decreases s.len(),
{
    if s.len() > 0 {
        let t = s.drop_last();
        assert(all_digits(t)) by {
            assert forall|i: int| 0 <= i < t.len() implies is_digit(#[trigger] t[i]) by {
                assert(t[i] == s[i]);
            }
        }
        lemma_num_bound(t);
        assert(is_digit(s[s.len() - 1]));
        let a = num(t);
        let p = pow10(t.len());
        assert(a * 10 + 9 < p * 10) by (nonlinear_arith)
            requires
                a < p,
        ;
    }
}

/// The number written by `s[from..to]`, which must hold four digits at most.
fn digits_value(s: &Vec<char>, from: usize, to: usize) -> (r: u32)
    requires
        from <= to <= s.len(),
        to - from <= 4,
        all_digits(s@.subrange(from as int, to as int)),
    ensures
        r == num(s@.subrange(from as int, to as int)),
{
    let mut acc: u32 = 0;
    let mut i: usize = from;
    assert(s@.subrange(from as int, from as int) =~= Seq::<char>::empty());
    while i < to
        invariant
            from <= i <= to <= s.len(),
            to - from <= 4,
            all_digits(s@.subrange(from as int, to as int)),
            acc == num(s@.subrange(from as int, i as int)),
        decreases to - i,
    {
        let ghost pre = s@.subrange(from as int, i as int);
        let ghost next = s@.subrange(from as int, i as int + 1);
        assert(next.drop_last() =~= pre);
        assert(is_digit(s@[i as int])) by {
            assert(s@[i as int] == s@.subrange(from as int, to as int)[i - from]);
        }
        assert(all_digits(pre)) by {
            assert forall|j: int| 0 <= j < pre.len() implies is_digit(#[trigger] pre[j]) by {
                assert(pre[j] == s@.subrange(from as int, to as int)[j]);
            }
        }
        proof {
            lemma_num_bound(pre);
            reveal_with_fuel(pow10, 4);
        }
        acc = acc * 10 + (s[i] as u32 - '0' as u32);
        i = i + 1;
    }
    acc
}

fn check_digits(s: &Vec<char>, from: usize, to: usize) -> (r: bool)
    requires
        from <= to <= s.len(),
    ensures
        r == all_digits(s@.subrange(from as int, to as int)),
{
    let mut i: usize = from;
    while i < to
        invariant
            from <= i <= to <= s.len(),
            forall|j: int| from <= j < i ==> is_digit(#[trigger] s@[j]),
        decreases to - i,
    {
        if !(s[i] >= '0' && s[i] <= '9') {
            assert(!is_digit(s@.subrange(from as int, to as int)[i - from]));
            return false;
        }
        i = i + 1;
    }
    assert forall|j: int| 0 <= j < to - from implies is_digit(
        #[trigger] s@.subrange(from as int, to as int)[j],
    ) by {
        assert(s@.subrange(from as int, to as int)[j] == s@[from + j]);
    }
    true
}

/// The largest distance from the epoch, in seconds, of an instant that a value
/// can denote.
pub const MAX_INSTANT: i64 = 200_000_000_000_000;

pub open spec fn in_range(t: int) -> bool {
    -MAX_INSTANT <= t <= MAX_INSTANT
}

pub open spec fn tzid_word() -> Seq<char> {
    seq!['T', 'Z', 'I', 'D']
}

/// The value of the first `TZID` parameter, if any.
pub open spec fn tzid(params: Seq<ParamV>) -> Option<Seq<char>>
    decreases params.len(),
{
    if params.len() == 0 {
        None
    } else if params[0].name == tzid_word() {
        Some(params[0].value)
    } else {
        tzid(params.drop_first())
    }
}

/// Zone names that denote UTC itself.
pub open spec fn is_utc_name(z: Seq<char>) -> bool {
    z == seq!['U', 'T', 'C'] || z == seq!['G', 'M', 'T'] || z == seq!['Z']
        || z == seq!['E', 't', 'c', '/', 'U', 'T', 'C'] || z == seq!['E', 't', 'c', '/', 'G', 'M', 'T']
}

/// The offset from UTC, in seconds, of a zone given by name (a UTC name) or as
/// `+HHMM` / `-HHMM`.
pub open spec fn zone_offset(z: Seq<char>) -> Option<int> {
    if is_utc_name(z) {
        Some(0)
    } else if z.len() == 5 && (z[0] == '+' || z[0] == '-') && all_digits(z.subrange(1, 5))
        && num(z.subrange(1, 3)) < 24 && num(z.subrange(3, 5)) < 60 {
        let off = num(z.subrange(1, 3)) * 3600 + num(z.subrange(3, 5)) * 60;
        Some(if z[0] == '+' { off } else { -off })
    } else {
        None
    }
}

/// `YYYYMMDD`.
pub open spec fn date_form(v: Seq<char>) -> bool {
    v.len() == 8 && all_digits(v)
}

/// `YYYYMMDDTHHMMSS`, followed by `Z` for a UTC time.
pub open spec fn date_time_form(v: Seq<char>) -> bool {
    (v.len() == 15 || (v.len() == 16 && v[15] == 'Z')) && all_digits(v.subrange(0, 8)) && v[8]
        == 'T' && all_digits(v.subrange(9, 15))
}

pub open spec fn field(v: Seq<char>, from: int, to: int) -> int {
    num(v.subrange(from, to))
}

/// The instant, in seconds since 1970-01-01T00:00:00Z, that a date or
/// date-time value denotes. A bare date is midnight UTC; a UTC time is taken as
/// it is; another time is in the zone of its `TZID` parameter, or in UTC where
/// it has none.
pub open spec fn instant(v: Seq<char>, params: Seq<ParamV>) -> Result<int, ICalError> {
    if date_form(v) {
        let (y, m, d) = (field(v, 0, 4), field(v, 4, 6), field(v, 6, 8));
        if valid_date(y, m, d) {
            Ok(days_from_civil(y, m, d) * 86400)
        } else {
            Err(ICalError::DateParse)
        }
    } else if date_time_form(v) {
        let (y, m, d) = (field(v, 0, 4), field(v, 4, 6), field(v, 6, 8));
        let (h, mi, s) = (field(v, 9, 11), field(v, 11, 13), field(v, 13, 15));
        let off = if v.len() == 16 {
            Some(0int)
        } else {
            match tzid(params) {
                None => Some(0int),
                Some(z) => zone_offset(z),
            }
        };
        if valid_date(y, m, d) && h < 24 && mi < 60 && s < 60 && off is Some {
            Ok(days_from_civil(y, m, d) * 86400 + h * 3600 + mi * 60 + s - off->0)
        } else {
            Err(ICalError::DateParse)
        }
    } else {
        Err(ICalError::DateParse)
    }
}

fn find_tzid(params: &Vec<Param>) -> (r: Option<&Vec<char>>)
    ensures
        match r {
            Some(z) => tzid(params_view(params@)) == Some(z@),
            None => tzid(params_view(params@)) is None,
        },
{
    let ghost ps = params_view(params@);
    let mut i: usize = 0;
    assert(ps.subrange(0, ps.len() as int) =~= ps);
    while i < params.len()
        invariant
            i <= params.len(),
            ps == params_view(params@),
            tzid(ps) == tzid(ps.subrange(i as int, ps.len() as int)),
        decreases params.len() - i,
    {
        assert(ps.subrange(i as int, ps.len() as int).drop_first() =~= ps.subrange(
            i as int + 1,
            ps.len() as int,
        ));
        if chars_equal(&params[i].name, &['T', 'Z', 'I', 'D']) {
            assert(['T', 'Z', 'I', 'D']@ =~= tzid_word());
            return Some(&params[i].value);
        }
        assert(['T', 'Z', 'I', 'D']@ =~= tzid_word());
        i = i + 1;
    }
    None
}

fn zone_offset_of(z: &Vec<char>) -> (r: Option<i64>)
    ensures
        match r {
            Some(o) => zone_offset(z@) == Some(o as int) && -86400 < o < 86400,
            None => zone_offset(z@) is None,
        },
{
    let utc = chars_equal(z, &['U', 'T', 'C']) || chars_equal(z, &['G', 'M', 'T']) || chars_equal(
        z,
        &['Z'],
    ) || chars_equal(z, &['E', 't', 'c', '/', 'U', 'T', 'C']) || chars_equal(
        z,
        &['E', 't', 'c', '/', 'G', 'M', 'T'],
    );
    assert(['U', 'T', 'C']@ =~= seq!['U', 'T', 'C']);
    assert(['G', 'M', 'T']@ =~= seq!['G', 'M', 'T']);
    assert(['Z']@ =~= seq!['Z']);
    assert(['E', 't', 'c', '/', 'U', 'T', 'C']@ =~= seq!['E', 't', 'c', '/', 'U', 'T', 'C']);
    assert(['E', 't', 'c', '/', 'G', 'M', 'T']@ =~= seq!['E', 't', 'c', '/', 'G', 'M', 'T']);
    if utc {
        return Some(0);
    }
    if z.len() != 5 || !(z[0] == '+' || z[0] == '-') || !check_digits(z, 1, 5) {
        return None;
    }
    proof { sub_digits(z@, 1, 5, 1, 3); sub_digits(z@, 1, 5, 3, 5); }
    let h = digits_value(z, 1, 3);
    let m = digits_value(z, 3, 5);
    if h >= 24 || m >= 60 {
        return None;
    }
    let off = (h as i64) * 3600 + (m as i64) * 60;
    if z[0] == '+' {
        Some(off)
    } else {
        Some(-off)
    }
}

proof fn sub_digits(s: Seq<char>, a: int, b: int, c: int, d: int)
    requires
        0 <= a <= c <= d <= b <= s.len(),
        all_digits(s.subrange(a, b)),
    ensures
        all_digits(s.subrange(c, d)),
{
    assert forall|i: int| 0 <= i < d - c implies is_digit(#[trigger] s.subrange(c, d)[i]) by {
        assert(s.subrange(c, d)[i] == s.subrange(a, b)[i + c - a]);
    }
}

/// Normalizes a `DTSTART` / `DTEND` value, with the parameters of its line, to
/// seconds since the Unix epoch.
pub fn normalize(value: &Vec<char>, params: &Vec<Param>) -> (r: Result<i64, ICalError>)
    ensures
        match r {
            Ok(t) => instant(value@, params_view(params@)) == Ok::<int, ICalError>(t as int)
                && in_range(t as int),
            Err(e) => instant(value@, params_view(params@)) == Err::<int, ICalError>(e),
        },
{
    let v = value;
    let n = v.len();
    let is_date = n == 8 && check_digits(v, 0, 8);
    proof {
        if n == 8 {
            assert(v@.subrange(0, 8) =~= v@);
        }
    }
    let is_date_time = (n == 15 || (n == 16 && v[15] == 'Z')) && check_digits(v, 0, 8) && v[8]
        == 'T' && check_digits(v, 9, 15);
    if !is_date && !is_date_time {
        return Err(ICalError::DateParse);
    }
    proof {
        sub_digits(v@, 0, 8, 0, 4);
        sub_digits(v@, 0, 8, 4, 6);
        sub_digits(v@, 0, 8, 6, 8);
    }
    let y = digits_value(v, 0, 4);
    let m = digits_value(v, 4, 6);
    let d = digits_value(v, 6, 8);
    proof {
        lemma_num_bound(v@.subrange(0, 4));
        reveal_with_fuel(pow10, 5);
        assert(y <= 9999);
    }
    let days = match day_number(y as i32, m, d) {
        Some(k) => k as i64 - 719163,
        None => {
            return Err(ICalError::DateParse);
        },
    };
    if is_date {
        return Ok(days * 86400);
    }
    proof {
        sub_digits(v@, 9, 15, 9, 11);
        sub_digits(v@, 9, 15, 11, 13);
        sub_digits(v@, 9, 15, 13, 15);
    }
    let h = digits_value(v, 9, 11);
    let mi = digits_value(v, 11, 13);
    let s = digits_value(v, 13, 15);
    if h >= 24 || mi >= 60 || s >= 60 {
        return Err(ICalError::DateParse);
    }
    let off: i64 = if n == 16 {
        0
    } else {
        match find_tzid(params) {
            None => 0,
            Some(z) => match zone_offset_of(z) {
                Some(o) => o,
                None => {
                    return Err(ICalError::DateParse);
                },
            },
        }
    };
    let t = days * 86400 + (h as i64) * 3600 + (mi as i64) * 60 + (s as i64) - off;
    assert(!date_form(value@));
    assert(date_time_form(value@));
    Ok(t)
}

} // verus!
