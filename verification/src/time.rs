//! Calendar arithmetic and the timestamp formats that the data sources use.
//!
//! Instants are seconds since 1970-01-01T00:00:00Z. A timestamp without a zone is
//! read as UTC, so that its calendar date is the one written.
use vstd::prelude::*;

use crate::text::chars_of;

verus! {

/// Seconds in a day.
pub const SECS_PER_DAY: i64 = 86400;

/// Gregorian leap year.
pub open spec fn is_leap_year(y: int) -> bool {
    (y % 4 == 0 && y % 100 != 0) || y % 400 == 0
}

/// Days in month `m` of year `y`.
pub open spec fn days_in_month(y: int, m: int) -> int {
    if m == 2 {
        if is_leap_year(y) {
            29
        } else {
            28
        }
    } else if m == 4 || m == 6 || m == 9 || m == 11 {
        30
    } else {
        31
    }
}

/// A valid calendar date with a four-digit year.
pub open spec fn valid_date(y: int, m: int, d: int) -> bool {
    1 <= y <= 9999 && 1 <= m <= 12 && 1 <= d <= days_in_month(y, m)
}

/// Days from 1970-01-01 to the date `y-m-d` (proleptic Gregorian calendar).
pub open spec fn days_from_civil(y: int, m: int, d: int) -> int {
    let y2 = if m <= 2 {
        y - 1
    } else {
        y
    };
    let era = y2 / 400;
    let yoe = y2 - era * 400;
    let mp = if m > 2 {
        m - 3
    } else {
        m + 9
    };
    let doy = (153 * mp + 2) / 5 + d - 1;
    let doe = yoe * 365 + yoe / 4 - yoe / 100 + doy;
    era * 146097 + doe - 719468
}

/// Year and month of the day `z` days after 1970-01-01.
pub open spec fn year_month_of_day(z: int) -> (int, int) {
    let z2 = z + 719468;
    let era = z2 / 146097;
    let doe = z2 - era * 146097;
    let yoe = (doe - doe / 1460 + doe / 36524 - doe / 146096) / 365;
    let y = yoe + era * 400;
    let doy = doe - (365 * yoe + yoe / 4 - yoe / 100);
    let mp = (5 * doy + 2) / 153;
    let m = if mp < 10 {
        mp + 3
    } else {
        mp - 9
    };
    (if m <= 2 {
        y + 1
    } else {
        y
    }, m)
}

/// Day number (since 1970-01-01) of the instant `t`.
pub open spec fn day_of_instant(t: int) -> int {
    t / 86400
}

/// The current time in seconds since the epoch: chrono `Utc::now().timestamp()`.
/// It depends on the clock; all that is stated is that it lies in the span of a
/// chrono `DateTime<Utc>` (`MIN_UTC` to `MAX_UTC`, years -262143 to 262142).
#[verifier::external_body]
pub(crate) fn now_epoch_secs() -> (r: i64)
    ensures
        -8334601228800 <= r <= 8210266876799,
{
    chrono::Utc::now().timestamp()
}

/// The form chrono's `to_rfc3339` gives a UTC instant of the years 0 to 9999: a date
/// `YYYY-MM-DD` (month 1 to 12, day 1 to 31), `T`, `HH:MM:SS`, a fraction of 3, 6 or 9 digits unless the
/// sub-second part is zero, and the offset `+00:00`.
pub open spec fn rfc3339_utc_form(s: Seq<char>) -> bool {
    let n = s.len() as int;
    &&& n == 25 || n == 29 || n == 32 || n == 35
    &&& digits_at(s, 0, 4) && s[4] == '-' && digits_at(s, 5, 2) && s[7] == '-' && digits_at(s, 8, 2)
    &&& 1 <= num2(s, 5) <= 12 && 1 <= num2(s, 8) <= 31
    &&& s[10] == 'T'
    &&& digits_at(s, 11, 2) && s[13] == ':' && digits_at(s, 14, 2) && s[16] == ':' && digits_at(s, 17, 2)
    &&& n > 25 ==> s[19] == '.' && digits_at(s, 20, n - 26)
    &&& s.subrange(n - 6, n) == seq!['+', '0', '0', ':', '0', '0']
}

/// A timestamp as chrono's `to_rfc3339` writes a UTC instant: the form above, or, for
/// a year outside 0 to 9999, text that starts with the year's sign.
pub open spec fn utc_timestamp(s: Seq<char>) -> bool {
    s.len() > 0 && (s[0] == '+' || s[0] == '-' || rfc3339_utc_form(s))
}

/// The current time as RFC 3339 text: chrono `Utc::now().to_rfc3339()`. Which instant
/// it names depends on the clock; its form is chrono's `write_rfc3339` with
/// `SecondsFormat::AutoSi` and the zero offset written `+00:00`.
#[verifier::external_body]
pub(crate) fn now_rfc3339() -> (r: String)
    ensures
        utc_timestamp(r@),
{
    chrono::Utc::now().to_rfc3339()
}

/// The name for what chrono's `NaiveDate::parse_from_str(s, "%Y-%m-%d")` gives, taken
/// as the date's `Datelike::num_days_from_ce` (1 for 0001-01-01, 719163 for
/// 1970-01-01); `None` when the text does not parse.
pub uninterp spec fn chrono_ymd_days_ce(s: Seq<char>) -> Option<int>;

/// chrono `NaiveDate::parse_from_str(s, "%Y-%m-%d")`, read as `num_days_from_ce`. The
/// result is named; chrono's parser is not restated.
#[verifier::external_body]
pub(crate) fn parse_ymd_days_ce(s: &str) -> (r: Option<i32>)
    ensures
        match r {
            Some(d) => chrono_ymd_days_ce(s@) == Some(d as int),
            None => chrono_ymd_days_ce(s@) is None,
        },
{
    chrono::NaiveDate::parse_from_str(s, "%Y-%m-%d").ok().map(|d| chrono::Datelike::num_days_from_ce(&d))
}

/// Days from 0001-01-01 (counted as day 1) to 1970-01-01 (`num_days_from_ce` of
/// the epoch).
pub const EPOCH_DAYS_FROM_CE: i64 = 719163;

/// Day number (since 1970-01-01, by UTC) of the instant `t`.
pub fn day_of(t: i64) -> (r: i64)
    ensures
        r == day_of_instant(t as int),
{
    if t >= 0 {
        t / SECS_PER_DAY
    } else {
        let w = -(t + 1);
        let q = w / SECS_PER_DAY;
        proof {
            assert(w == q * 86400 + w % 86400) by (nonlinear_arith)
                requires
                    q == w / 86400,
                    w >= 0,
            ;
            assert(0 <= w % 86400 < 86400) by (nonlinear_arith)
                requires
                    w >= 0,
            ;
            let r = -q - 1;
            assert(t == r * 86400 + (86400 - 1 - w % 86400));
            assert(r == t / 86400) by (nonlinear_arith)
                requires
                    t == r * 86400 + (86400 - 1 - w % 86400),
                    0 <= w % 86400 < 86400,
            ;
        }
        -q - 1
    }
}

/// Days from 1970-01-01 to a valid date.
pub fn days_from_date(y: i64, m: i64, d: i64) -> (r: i64)
    requires
        1 <= y <= 9999,
        1 <= m <= 12,
        1 <= d <= 31,
    ensures
        r == days_from_civil(y as int, m as int, d as int),
{
    let y2 = if m <= 2 {
        y - 1
    } else {
        y
    };
    let era = y2 / 400;
    let yoe = y2 - era * 400;
    let mp = if m > 2 {
        m - 3
    } else {
        m + 9
    };
    let doy = (153 * mp + 2) / 5 + d - 1;
    assert(0 <= yoe < 400);
    let doe = yoe * 365 + yoe / 4 - yoe / 100 + doy;
    era * 146097 + doe - 719468
}

/// Calendar year and month (UTC) of the instant `t`.
pub fn year_month_of(t: i64) -> (r: (i64, i64))
    ensures
        r.0 == year_month_of_day(day_of_instant(t as int)).0,
        r.1 == year_month_of_day(day_of_instant(t as int)).1,
        -500000000000000 <= r.0 <= 500000000000000,
{
    let z = day_of(t);
    assert(-106751991167301 <= z <= 106751991167300) by (nonlinear_arith)
        requires
            z == (t as int) / 86400,
            i64::MIN <= t <= i64::MAX,
    ;
    let z2 = z + 719468;
    let era = if z2 >= 0 {
        z2 / 146097
    } else {
        let w = -(z2 + 1);
        let q = w / 146097;
        proof {
            assert(w == q * 146097 + w % 146097) by (nonlinear_arith)
                requires
                    q == w / 146097,
                    w >= 0,
            ;
            assert(0 <= w % 146097 < 146097) by (nonlinear_arith)
                requires
                    w >= 0,
            ;
            let r = -q - 1;
            assert(z2 == r * 146097 + (146097 - 1 - w % 146097));
            assert(r == z2 / 146097) by (nonlinear_arith)
                requires
                    z2 == r * 146097 + (146097 - 1 - w % 146097),
                    0 <= w % 146097 < 146097,
            ;
        }
        -q - 1
    };
    assert(0 <= z2 - era * 146097 < 146097) by (nonlinear_arith)
        requires
            era == z2 / 146097,
    ;
    assert(-1000000000000 <= era <= 1000000000000) by (nonlinear_arith)
        requires
            era == z2 / 146097,
            -106751991167301 + 719468 <= z2 <= 106751991167300 + 719468,
    ;
    let doe = z2 - era * 146097;
    let yoe = (doe - doe / 1460 + doe / 36524 - doe / 146096) / 365;
    assert(0 <= yoe <= 400);
    let y = yoe + era * 400;
    let doy = doe - (365 * yoe + yoe / 4 - yoe / 100);
    let mp = (5 * doy + 2) / 153;
    let m = if mp < 10 {
        mp + 3
    } else {
        mp - 9
    };
    (if m <= 2 {
        y + 1
    } else {
        y
    }, m)
}

// ---------------------------------------------------------------------------
// Timestamp text
// ---------------------------------------------------------------------------

pub open spec fn is_digit(c: char) -> bool {
    '0' <= c <= '9'
}

pub open spec fn digit_value(c: char) -> int {
    (c as int) - ('0' as int)
}

/// Positions `i..i+n` of `s` hold decimal digits.
pub open spec fn digits_at(s: Seq<char>, i: int, n: int) -> bool {
    0 <= i && i + n <= s.len() && forall|k: int| i <= k < i + n ==> is_digit(#[trigger] s[k])
}

/// The two-digit number at position `i`.
pub open spec fn num2(s: Seq<char>, i: int) -> int {
    digit_value(s[i]) * 10 + digit_value(s[i + 1])
}

/// The four-digit number at position `i`.
pub open spec fn num4(s: Seq<char>, i: int) -> int {
    num2(s, i) * 100 + num2(s, i + 2)
}

/// Number of leading decimal digits of `s`.
pub open spec fn leading_digits(s: Seq<char>) -> int
    decreases s.len(),
{
    if s.len() > 0 && is_digit(s[0]) {
        1 + leading_digits(s.drop_first())
    } else {
        0
    }
}

/// The day number of a leading `YYYY-MM-DD`, if `s` starts with a valid date.
pub open spec fn date_prefix_days(s: Seq<char>) -> Option<int> {
    if s.len() >= 10 && digits_at(s, 0, 4) && s[4] == '-' && digits_at(s, 5, 2) && s[7] == '-'
        && digits_at(s, 8, 2) && valid_date(num4(s, 0), num2(s, 5), num2(s, 8)) {
        Some(days_from_civil(num4(s, 0), num2(s, 5), num2(s, 8)))
    } else {
        None
    }
}

/// Offset east of UTC that a zone suffix denotes: none (UTC), `Z`, or `+HH:MM` / `-HH:MM`.
pub open spec fn zone_offset(z: Seq<char>) -> Option<int> {
    if z.len() == 0 {
        Some(0)
    } else if z.len() == 1 && z[0] == 'Z' {
        Some(0)
    } else if z.len() == 6 && (z[0] == '+' || z[0] == '-') && digits_at(z, 1, 2) && z[3] == ':'
        && digits_at(z, 4, 2) && num2(z, 1) < 24 && num2(z, 4) < 60 {
        let o = num2(z, 1) * 3600 + num2(z, 4) * 60;
        Some(
            if z[0] == '+' {
                o
            } else {
                -o
            },
        )
    } else {
        None
    }
}

/// Seconds into the day and the zone suffix of a time part ` HH:MM[:SS[.fff]]zone`
/// (`T` may stand for the space).
pub open spec fn clock_part(r: Seq<char>) -> Option<(int, Seq<char>)> {
    if r.len() >= 6 && (r[0] == ' ' || r[0] == 'T') && digits_at(r, 1, 2) && r[3] == ':'
        && digits_at(r, 4, 2) && num2(r, 1) < 24 && num2(r, 4) < 60 {
        let hm = num2(r, 1) * 3600 + num2(r, 4) * 60;
        let t = r.subrange(6, r.len() as int);
        if t.len() >= 3 && t[0] == ':' && digits_at(t, 1, 2) {
            if num2(t, 1) < 60 {
                let u = t.subrange(3, t.len() as int);
                let f = if u.len() >= 2 && u[0] == '.' && is_digit(u[1]) {
                    1 + leading_digits(u.drop_first())
                } else {
                    0
                };
                Some((hm + num2(t, 1), u.subrange(f, u.len() as int)))
            } else {
                None
            }
        } else {
            Some((hm, t))
        }
    } else {
        None
    }
}

/// The instant that a timestamp denotes, if it is one: `YYYY-MM-DD`, optionally
/// followed by a time part and a zone.
pub open spec fn parse_dt_spec(s: Seq<char>) -> Option<int> {
    match date_prefix_days(s) {
        None => None,
        Some(days) => {
            let r = s.subrange(10, s.len() as int);
            if r.len() == 0 {
                Some(days * 86400)
            } else {
                match clock_part(r) {
                    None => None,
                    Some(cz) => match zone_offset(cz.1) {
                        None => None,
                        Some(off) => Some(days * 86400 + cz.0 - off),
                    },
                }
            }
        },
    }
}

fn is_digit_char(c: char) -> (b: bool)
    ensures
        b == is_digit(c),
{
    '0' <= c && c <= '9'
}

fn digits_in(cs: &Vec<char>, i: usize, n: usize) -> (b: bool)
    ensures
        b == digits_at(cs@, i as int, n as int),
{
    if i > cs.len() || n > cs.len() - i {
        return false;
    }
    let mut k = i;
    while k < i + n
        invariant
            i + n <= cs.len(),
            i <= k <= i + n,
            forall|j: int| i <= j < k ==> is_digit(#[trigger] cs@[j]),
        decreases i + n - k,
    {
        if !is_digit_char(cs[k]) {
            return false;
        }
        k = k + 1;
    }
    true
}

fn digit_of(c: char) -> (r: i64)
    requires
        is_digit(c),
    ensures
        r == digit_value(c),
        0 <= r <= 9,
{
    (c as u32 - '0' as u32) as i64
}

fn two_digits(cs: &Vec<char>, i: usize) -> (r: i64)
    requires
        digits_at(cs@, i as int, 2),
    ensures
        r == num2(cs@, i as int),
        0 <= r <= 99,
{
    let n = cs.len();
    assert(i + 2 <= n);
    assert(is_digit(cs@[i as int]) && is_digit(cs@[i + 1]));
    let j: usize = i + 1;
    let a = digit_of(cs[i]);
    let b = digit_of(cs[j]);
    a * 10 + b
}

fn count_leading_digits(cs: &Vec<char>, from: usize) -> (r: usize)
    requires
        from <= cs.len(),
    ensures
        r == leading_digits(cs@.subrange(from as int, cs.len() as int)),
        from + r <= cs.len(),
{
    let mut k = cs.len();
    let mut count: usize = 0;
    // Count from the end so that the recursion of the specification unfolds forwards.
    let mut i = from;
    while i < cs.len() && is_digit_char(cs[i])
        invariant
            from <= i <= cs.len(),
            k == cs.len(),
            leading_digits(cs@.subrange(from as int, k as int)) == (i - from) + leading_digits(
                cs@.subrange(i as int, k as int),
            ),
        decreases cs.len() - i,
    {
        assert(cs@.subrange(i as int, k as int).drop_first() == cs@.subrange(i + 1, k as int));
        i = i + 1;
    }
    count = i - from;
    count
}

fn zone_of(cs: &Vec<char>, from: usize) -> (r: Option<i64>)
    requires
        from <= cs.len(),
    ensures
        match r {
            Some(o) => zone_offset(cs@.subrange(from as int, cs.len() as int)) == Some(o as int),
            None => zone_offset(cs@.subrange(from as int, cs.len() as int)) is None,
        },
{
    let ghost z = cs@.subrange(from as int, cs.len() as int);
    let n = cs.len() - from;
    if n == 0 {
        return Some(0);
    }
    if n == 1 && cs[from] == 'Z' {
        return Some(0);
    }
    if n == 6 && (cs[from] == '+' || cs[from] == '-') && digits_in(cs, from + 1, 2) && cs[from
        + 3] == ':' && digits_in(cs, from + 4, 2) {
        assert(digits_at(z, 1, 2) && digits_at(z, 4, 2)) by {
            assert forall|k: int| 1 <= k < 3 implies is_digit(#[trigger] z[k]) by {
                assert(z[k] == cs@[from + k]);
            }
            assert forall|k: int| 4 <= k < 6 implies is_digit(#[trigger] z[k]) by {
                assert(z[k] == cs@[from + k]);
            }
        }
        let h = two_digits(cs, from + 1);
        let mi = two_digits(cs, from + 4);
        assert(h == num2(z, 1) && mi == num2(z, 4));
        if h < 24 && mi < 60 {
            let o = h * 3600 + mi * 60;
            if cs[from] == '+' {
                return Some(o);
            } else {
                return Some(-o);
            }
        }
        return None;
    }
    proof {
        if n == 6 && (z[0] == '+' || z[0] == '-') && z[3] == ':' {
            if digits_at(z, 1, 2) {
                assert forall|k: int| from + 1 <= k < from + 3 implies is_digit(#[trigger] cs@[k]) by {
                    assert(cs@[k] == z[k - from]);
                }
            }
            if digits_at(z, 4, 2) {
                assert forall|k: int| from + 4 <= k < from + 6 implies is_digit(#[trigger] cs@[k]) by {
                    assert(cs@[k] == z[k - from]);
                }
            }
        }
    }
    None
}

/// The instant that a timestamp denotes, if it is one (see `parse_dt_spec`).
pub fn parse_dt(s: &str) -> (r: Option<i64>)
    ensures
        match r {
            Some(t) => parse_dt_spec(s@) == Some(t as int),
            None => parse_dt_spec(s@) is None,
        },
{
    let cs = chars_of(s);
    let days = match date_prefix(&cs) {
        Some(d) => d,
        None => return None,
    };
    let ghost sv = cs@;
    let ghost r = sv.subrange(10, sv.len() as int);
    if cs.len() == 10 {
        return Some(days * SECS_PER_DAY);
    }
    // The time part: separator, HH:MM.
    if !(cs.len() >= 16 && (cs[10] == ' ' || cs[10] == 'T') && digits_in(&cs, 11, 2) && cs[13]
        == ':' && digits_in(&cs, 14, 2)) {
        proof {
            if r.len() >= 6 && (r[0] == ' ' || r[0] == 'T') && r[3] == ':' {
                if digits_at(r, 1, 2) {
                    assert forall|k: int| 11 <= k < 13 implies is_digit(#[trigger] sv[k]) by {
                        assert(sv[k] == r[k - 10]);
                    }
                }
                if digits_at(r, 4, 2) {
                    assert forall|k: int| 14 <= k < 16 implies is_digit(#[trigger] sv[k]) by {
                        assert(sv[k] == r[k - 10]);
                    }
                }
            }
        }
        return None;
    }
    assert(digits_at(r, 1, 2) && digits_at(r, 4, 2)) by {
        assert forall|k: int| 1 <= k < 3 implies is_digit(#[trigger] r[k]) by {
            assert(r[k] == sv[k + 10]);
        }
        assert forall|k: int| 4 <= k < 6 implies is_digit(#[trigger] r[k]) by {
            assert(r[k] == sv[k + 10]);
        }
    }
    let hh = two_digits(&cs, 11);
    let mm = two_digits(&cs, 14);
    assert(hh == num2(r, 1) && mm == num2(r, 4));
    if hh >= 24 || mm >= 60 {
        return None;
    }
    let hm = hh * 3600 + mm * 60;
    let ghost t = r.subrange(6, r.len() as int);
    assert(t == sv.subrange(16, sv.len() as int));
    let mut secs = hm;
    let mut zone_from: usize = 16;
    if cs.len() >= 19 && cs[16] == ':' && digits_in(&cs, 17, 2) {
        assert(digits_at(t, 1, 2)) by {
            assert forall|k: int| 1 <= k < 3 implies is_digit(#[trigger] t[k]) by {
                assert(t[k] == sv[k + 16]);
            }
        }
        let ss = two_digits(&cs, 17);
        assert(ss == num2(t, 1));
        if ss >= 60 {
            return None;
        }
        secs = hm + ss;
        let ghost u = t.subrange(3, t.len() as int);
        assert(u == sv.subrange(19, sv.len() as int));
        if cs.len() >= 21 && cs[19] == '.' && is_digit_char(cs[20]) {
            let f = count_leading_digits(&cs, 20);
            assert(u.drop_first() == sv.subrange(20, sv.len() as int));
            zone_from = 20 + f;
            assert(u.subrange(1 + f, u.len() as int) == sv.subrange(zone_from as int, sv.len() as int));
        } else {
            zone_from = 19;
            assert(u.subrange(0, u.len() as int) == u);
        }
    } else {
        proof {
            if t.len() >= 3 && t[0] == ':' && digits_at(t, 1, 2) {
                assert forall|k: int| 17 <= k < 19 implies is_digit(#[trigger] sv[k]) by {
                    assert(sv[k] == t[k - 16]);
                }
            }
        }
    }
    match zone_of(&cs, zone_from) {
        Some(off) => Some(days * SECS_PER_DAY + secs - off),
        None => None,
    }
}

/// Day number of a leading valid `YYYY-MM-DD`.
pub fn date_prefix(cs: &Vec<char>) -> (r: Option<i64>)
    ensures
        match r {
            Some(d) => date_prefix_days(cs@) == Some(d as int),
            None => date_prefix_days(cs@) is None,
        },
        r is Some ==> -1000000 <= r->0 <= 3000000,
{
    if !(cs.len() >= 10 && digits_in(cs, 0, 4) && cs[4] == '-' && digits_in(cs, 5, 2) && cs[7]
        == '-' && digits_in(cs, 8, 2)) {
        return None;
    }
    let y = two_digits(cs, 0) * 100 + two_digits(cs, 2);
    let m = two_digits(cs, 5);
    let d = two_digits(cs, 8);
    let leap = (y % 4 == 0 && y % 100 != 0) || y % 400 == 0;
    let dim = if m == 2 {
        if leap {
            29
        } else {
            28
        }
    } else if m == 4 || m == 6 || m == 9 || m == 11 {
        30
    } else {
        31
    };
    if y < 1 || m < 1 || m > 12 || d < 1 || d > dim {
        return None;
    }
    let days = days_from_date(y, m, d);
    assert(-1000000 <= days <= 3000000);
    Some(days)
}

proof fn lemma_num2_range(s: Seq<char>, i: int)
    requires
        digits_at(s, i, 2),
    ensures
        0 <= num2(s, i) <= 99,
{
    assert(is_digit(s[i]) && is_digit(s[i + 1]));
}

proof fn lemma_days_range(y: int, m: int, d: int)
    requires
        valid_date(y, m, d),
    ensures
        -1000000 <= days_from_civil(y, m, d) <= 3000000,
{
}

/// Instants that parse are within the years 1 to 9999 (give or take a day).
pub proof fn lemma_parse_dt_range(s: Seq<char>)
    ensures
        parse_dt_spec(s) matches Some(t) ==> -1000000 * 86400 - 86400 <= t <= 3000000 * 86400 + 86400,
{
    match date_prefix_days(s) {
        None => {},
        Some(days) => {
            lemma_days_range(num4(s, 0), num2(s, 5), num2(s, 8));
            let r = s.subrange(10, s.len() as int);
            if r.len() > 0 {
                match clock_part(r) {
                    None => {},
                    Some(cz) => {
                        lemma_num2_range(r, 1);
                        lemma_num2_range(r, 4);
                        let t = r.subrange(6, r.len() as int);
                        if t.len() >= 3 && t[0] == ':' && digits_at(t, 1, 2) {
                            lemma_num2_range(t, 1);
                        }
                        assert(0 <= cz.0 < 86400);
                        let z = cz.1;
                        if z.len() == 6 && (z[0] == '+' || z[0] == '-') && digits_at(z, 1, 2) && z[3] == ':'
                            && digits_at(z, 4, 2) {
                            lemma_num2_range(z, 1);
                            lemma_num2_range(z, 4);
                        }
                    },
                }
            }
        },
    }
}

} // verus!
