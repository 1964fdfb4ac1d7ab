//! The unified instant model: a `Moment` is either a calendar date (carried
//! as its midnight instant in the reference zone it was read in) or a precise
//! instant. Both are represented as seconds since the civil epoch
//! 0000-01-01T00:00:00 UTC, so ordering across the two variants is total.
use crate::civil::{
    civil_decomp, civil_secs, civil_secs_x, civil_of_secs_x, days_in_month_x,
    lemma_civil_decomp, lemma_civil_decomp_unique, lemma_civil_secs_range, valid_civil, valid_ymd,
    SECS_MAX, UNIX_EPOCH_SECS,
};
use crate::zone::{local_midnight_unix, zone_civil_to_unix, zone_civil_to_unix_x};
use vstd::prelude::*;

verus! {

/// Error for text that is neither an 8-digit date nor a date-time form,
/// has out-of-range components, or names an unknown or unusable time zone.
#[derive(Debug, Clone, Copy, PartialEq, Eq, Structural)]
pub enum MomentError {
    MalformedInstant,
}

/// A calendar date (as the instant of its midnight in its reference zone)
/// or a precise instant; the payload counts seconds since the civil epoch
/// 0000-01-01T00:00:00 UTC.
#[derive(Debug, Clone, Copy, PartialEq, Eq, Structural)]
pub enum Moment {
    Date(i64),
    DateTime(i64),
}

impl Moment {
    /// The instant this moment denotes; a date stands for its midnight.
    pub open spec fn spec_instant(self) -> int {
        match self {
            Moment::Date(s) => s as int,
            Moment::DateTime(s) => s as int,
        }
    }

    pub open spec fn in_range(self) -> bool {
        0 <= self.spec_instant() < SECS_MAX
    }

    pub fn instant(&self) -> (r: i64)
        ensures
            r == self.spec_instant(),
    {
        match self {
            Moment::Date(s) => *s,
            Moment::DateTime(s) => *s,
        }
    }

    /// Strict instant order; a date compares as its midnight instant.
    pub fn lt(&self, other: &Moment) -> (b: bool)
        ensures
            b == (self.spec_instant() < other.spec_instant()),
    {
        self.instant() < other.instant()
    }

    pub fn le(&self, other: &Moment) -> (b: bool)
        ensures
            b == (self.spec_instant() <= other.spec_instant()),
    {
        self.instant() <= other.instant()
    }
}

pub open spec fn digit_val(c: char) -> Option<int> {
    match c {
        '0' => Some(0int),
        '1' => Some(1int),
        '2' => Some(2int),
        '3' => Some(3int),
        '4' => Some(4int),
        '5' => Some(5int),
        '6' => Some(6int),
        '7' => Some(7int),
        '8' => Some(8int),
        '9' => Some(9int),
        _ => None,
    }
}

pub open spec fn digit_char(v: int) -> char {
    if v == 0 {
        '0'
    } else if v == 1 {
        '1'
    } else if v == 2 {
        '2'
    } else if v == 3 {
        '3'
    } else if v == 4 {
        '4'
    } else if v == 5 {
        '5'
    } else if v == 6 {
        '6'
    } else if v == 7 {
        '7'
    } else if v == 8 {
        '8'
    } else {
        '9'
    }
}

/// The two-digit number at position `i` of `s`, if both are digits.
pub open spec fn num2(s: Seq<char>, i: int) -> Option<int> {
    match (digit_val(s[i]), digit_val(s[i + 1])) {
        (Some(a), Some(b)) => Some(10 * a + b),
        _ => None,
    }
}

/// The four-digit number at position `i` of `s`, if all four are digits.
pub open spec fn num4(s: Seq<char>, i: int) -> Option<int> {
    match (num2(s, i), num2(s, i + 2)) {
        (Some(a), Some(b)) => Some(100 * a + b),
        _ => None,
    }
}

/// An 8-digit `YYYYMMDD` date string's components.
pub open spec fn date_form(s: Seq<char>) -> Option<(int, int, int)> {
    if s.len() == 8 {
        match (num4(s, 0), num2(s, 4), num2(s, 6)) {
            (Some(y), Some(m), Some(d)) => Some((y, m, d)),
            _ => None,
        }
    } else {
        None
    }
}

/// A 15-character `YYYYMMDDTHHMMSS` string's components.
pub open spec fn datetime_form(s: Seq<char>) -> Option<(int, int, int, int, int, int)> {
    if s.len() == 15 && s[8] == 'T' {
        match (num4(s, 0), num2(s, 4), num2(s, 6), num2(s, 9), num2(s, 11), num2(s, 13)) {
            (Some(y), Some(m), Some(d), Some(h), Some(mi), Some(sec)) => Some(
                (y, m, d, h, mi, sec),
            ),
            _ => None,
        }
    } else {
        None
    }
}

/// A 16-character `YYYYMMDDTHHMMSSZ` string's components.
pub open spec fn utc_form(s: Seq<char>) -> Option<(int, int, int, int, int, int)> {
    if s.len() == 16 && s[15] == 'Z' {
        datetime_form(s.subrange(0, 15))
    } else {
        None
    }
}

/// What `Moment::parse` returns for text `s` and zone parameter `zone`.
/// A trailing `Z` forces UTC; a `T` form without `Z` is read in the named
/// zone (UTC when none is given); a bare 8-digit date is read as midnight in
/// the system's local zone, so only bounds are stated for its instant.
pub open spec fn parse_rel(
    s: Seq<char>,
    zone: Option<Seq<char>>,
    r: Result<Moment, MomentError>,
) -> bool {
    match utc_form(s) {
        Some((y, m, d, h, mi, sec)) => if valid_civil(y, m, d, h, mi, sec) {
            r == Ok::<Moment, MomentError>(Moment::DateTime(civil_secs(y, m, d, h, mi, sec) as i64))
        } else {
            r == Err::<Moment, MomentError>(MomentError::MalformedInstant)
        },
        None => match datetime_form(s) {
            Some((y, m, d, h, mi, sec)) => if !valid_civil(y, m, d, h, mi, sec) {
                r == Err::<Moment, MomentError>(MomentError::MalformedInstant)
            } else {
                match zone {
                    None => r == Ok::<Moment, MomentError>(
                        Moment::DateTime(civil_secs(y, m, d, h, mi, sec) as i64),
                    ),
                    Some(z) => match zone_civil_to_unix(z, y, m, d, h, mi, sec) {
                        Some(u) => if 0 <= u + UNIX_EPOCH_SECS < SECS_MAX {
                            r == Ok::<Moment, MomentError>(
                                Moment::DateTime((u + UNIX_EPOCH_SECS) as i64),
                            )
                        } else {
                            r == Err::<Moment, MomentError>(MomentError::MalformedInstant)
                        },
                        None => r == Err::<Moment, MomentError>(MomentError::MalformedInstant),
                    },
                }
            },
            None => match date_form(s) {
                Some((y, m, d)) => if valid_ymd(y, m, d) {
                    match r {
                        Ok(mo) => {
                            &&& mo matches Moment::Date(k)
                            &&& civil_secs(y, m, d, 0, 0, 0) - 86400 < k < civil_secs(
                                y, m, d, 0, 0, 0,
                            ) + 86400
                            &&& 0 <= k < SECS_MAX
                        },
                        Err(e) => e == MomentError::MalformedInstant,
                    }
                } else {
                    r == Err::<Moment, MomentError>(MomentError::MalformedInstant)
                },
                None => r == Err::<Moment, MomentError>(MomentError::MalformedInstant),
            },
        },
    }
}

/// The two characters of `v` printed as two decimal digits.
pub open spec fn two_digit_chars(v: int) -> Seq<char> {
    seq![digit_char(v / 10), digit_char(v % 10)]
}

/// The four characters of `v` printed as four decimal digits.
pub open spec fn four_digit_chars(v: int) -> Seq<char> {
    two_digit_chars(v / 100) + two_digit_chars(v % 100)
}

/// The basic `YYYYMMDDTHHMMSSZ` UTC text of instant `t`.
pub open spec fn utc_basic_chars(t: int) -> Seq<char> {
    let (y, m, d, h, mi, s) = civil_decomp(t);
    four_digit_chars(y) + two_digit_chars(m) + two_digit_chars(d) + seq!['T'] + two_digit_chars(h)
        + two_digit_chars(mi) + two_digit_chars(s) + seq!['Z']
}

pub proof fn lemma_digit_round(v: int)
    requires
        0 <= v < 10,
    ensures
        digit_val(digit_char(v)) == Some(v),
{
}

pub proof fn lemma_num2_two_digit(s: Seq<char>, i: int, v: int)
    requires
        0 <= v < 100,
        0 <= i,
        i + 2 <= s.len(),
        s[i] == two_digit_chars(v)[0],
        s[i + 1] == two_digit_chars(v)[1],
    ensures
        num2(s, i) == Some(v),
{
    vstd::arithmetic::div_mod::lemma_fundamental_div_mod(v, 10);
    vstd::arithmetic::div_mod::lemma_mod_division_less_than_divisor(v, 10);
    lemma_digit_round(v / 10);
    lemma_digit_round(v % 10);
}

pub proof fn lemma_num4_four_digit(s: Seq<char>, i: int, v: int)
    requires
        0 <= v < 10000,
        0 <= i,
        i + 4 <= s.len(),
        s[i] == four_digit_chars(v)[0],
        s[i + 1] == four_digit_chars(v)[1],
        s[i + 2] == four_digit_chars(v)[2],
        s[i + 3] == four_digit_chars(v)[3],
    ensures
        num4(s, i) == Some(v),
{
    vstd::arithmetic::div_mod::lemma_fundamental_div_mod(v, 100);
    vstd::arithmetic::div_mod::lemma_mod_division_less_than_divisor(v, 100);
    lemma_num2_two_digit(s, i, v / 100);
    lemma_num2_two_digit(s, i + 2, v % 100);
}

/// The recurrence-anchor round trip: formatting an in-range instant in the
/// basic UTC form and parsing that text back (with any zone parameter, since
/// a trailing `Z` forces UTC) yields exactly the instant that was formatted.
pub proof fn lemma_utc_round_trip(t: int, zone: Option<Seq<char>>)
    requires
        0 <= t < SECS_MAX,
    ensures
        parse_rel(utc_basic_chars(t), zone, Ok(Moment::DateTime(t as i64))),
{
    lemma_civil_decomp(t);
    let (y, m, d, h, mi, s) = civil_decomp(t);
    let cs = utc_basic_chars(t);
    assert(cs.len() == 16);
    assert(cs[15] == 'Z');
    let sub = cs.subrange(0, 15);
    assert(sub[8] == 'T');
    lemma_num4_four_digit(sub, 0, y);
    lemma_num2_two_digit(sub, 4, m);
    lemma_num2_two_digit(sub, 6, d);
    lemma_num2_two_digit(sub, 9, h);
    lemma_num2_two_digit(sub, 11, mi);
    lemma_num2_two_digit(sub, 13, s);
    assert(datetime_form(sub) == Some((y, m, d, h, mi, s)));
    lemma_civil_secs_range(y, m, d, h, mi, s);
}

/// Ordering across the two variants follows the instants they denote: a
/// `Date` precedes a `DateTime` exactly when the date's midnight instant
/// precedes the timestamp.
pub proof fn lemma_date_vs_datetime(d: i64, t: i64)
    ensures
        (Moment::Date(d).spec_instant() < Moment::DateTime(t).spec_instant()) <==> d < t,
{
}

/// The instant order on moments is total: trichotomous, antisymmetric and
/// transitive, also across mixed variants.
pub proof fn lemma_moment_order_total(a: Moment, b: Moment, c: Moment)
    ensures
        a.spec_instant() < b.spec_instant() || b.spec_instant() < a.spec_instant()
            || a.spec_instant() == b.spec_instant(),
        a.spec_instant() < b.spec_instant() ==> !(b.spec_instant() < a.spec_instant()),
        a.spec_instant() < b.spec_instant() && b.spec_instant() < c.spec_instant()
            ==> a.spec_instant() < c.spec_instant(),
{
}

/// One digit as a string slice.
fn digit_str(v: u64) -> (r: &'static str)
    requires
        v < 10,
    ensures
        r@ == seq![digit_char(v as int)],
{
    match v {
        0 => {
            proof { reveal_strlit("0"); assert("0"@ =~= seq![digit_char(0)]); }
            "0"
        },
        1 => {
            proof { reveal_strlit("1"); assert("1"@ =~= seq![digit_char(1)]); }
            "1"
        },
        2 => {
            proof { reveal_strlit("2"); assert("2"@ =~= seq![digit_char(2)]); }
            "2"
        },
        3 => {
            proof { reveal_strlit("3"); assert("3"@ =~= seq![digit_char(3)]); }
            "3"
        },
        4 => {
            proof { reveal_strlit("4"); assert("4"@ =~= seq![digit_char(4)]); }
            "4"
        },
        5 => {
            proof { reveal_strlit("5"); assert("5"@ =~= seq![digit_char(5)]); }
            "5"
        },
        6 => {
            proof { reveal_strlit("6"); assert("6"@ =~= seq![digit_char(6)]); }
            "6"
        },
        7 => {
            proof { reveal_strlit("7"); assert("7"@ =~= seq![digit_char(7)]); }
            "7"
        },
        8 => {
            proof { reveal_strlit("8"); assert("8"@ =~= seq![digit_char(8)]); }
            "8"
        },
        _ => {
            proof { reveal_strlit("9"); assert("9"@ =~= seq![digit_char(9)]); }
            "9"
        },
    }
}

/// Appends `v` as two decimal digits.
pub(crate) fn push_two(out: &mut String, v: u64)
    requires
        v < 100,
    ensures
        final(out)@ == old(out)@ + two_digit_chars(v as int),
{
    out.append(digit_str(v / 10));
    out.append(digit_str(v % 10));
    proof {
        assert(out@ =~= old(out)@ + two_digit_chars(v as int));
    }
}

/// Appends `v` as four decimal digits.
pub(crate) fn push_four(out: &mut String, v: u64)
    requires
        v < 10000,
    ensures
        final(out)@ == old(out)@ + four_digit_chars(v as int),
{
    push_two(out, v / 100);
    push_two(out, v % 100);
    proof {
        assert(out@ =~= old(out)@ + four_digit_chars(v as int));
    }
}

/// Prints instant `t` in the basic `YYYYMMDDTHHMMSSZ` UTC form.
pub fn utc_basic_x(t: i64) -> (r: String)
    requires
        0 <= t < SECS_MAX,
    ensures
        r@ == utc_basic_chars(t as int),
{
    let (y, m, d, h, mi, s) = civil_of_secs_x(t);
    proof {
        lemma_civil_decomp_unique(
            t as int, y as int, m as int, d as int, h as int, mi as int, s as int,
        );
    }
    let mut out = String::new();
    push_four(&mut out, y);
    push_two(&mut out, m);
    push_two(&mut out, d);
    proof {
        reveal_strlit("T");
        assert("T"@ =~= seq!['T']);
    }
    out.append("T");
    push_two(&mut out, h);
    push_two(&mut out, mi);
    push_two(&mut out, s);
    proof {
        reveal_strlit("Z");
        assert("Z"@ =~= seq!['Z']);
    }
    out.append("Z");
    proof {
        assert(out@ =~= utc_basic_chars(t as int));
    }
    out
}

impl Moment {
    /// This moment's instant printed in the basic UTC form (a date prints
    /// as its midnight instant).
    pub fn to_string(&self) -> (r: String)
        requires
            self.in_range(),
        ensures
            r@ == utc_basic_chars(self.spec_instant()),
    {
        utc_basic_x(self.instant())
    }
}

/// The digit value of `c`, if `c` is a decimal digit.
fn digit_of(c: char) -> (r: Option<u64>)
    ensures
        r matches Some(v) ==> digit_val(c) == Some(v as int) && v < 10,
        r is None ==> digit_val(c) is None,
{
    match c {
        '0' => Some(0),
        '1' => Some(1),
        '2' => Some(2),
        '3' => Some(3),
        '4' => Some(4),
        '5' => Some(5),
        '6' => Some(6),
        '7' => Some(7),
        '8' => Some(8),
        '9' => Some(9),
        _ => None,
    }
}

/// Reads the two-digit number at `i`.
fn read2(s: &str, i: usize) -> (r: Option<u64>)
    requires
        i + 2 <= s@.len(),
        s@.len() <= usize::MAX,
    ensures
        r matches Some(v) ==> num2(s@, i as int) == Some(v as int) && v < 100,
        r is None ==> num2(s@, i as int) is None,
{
    let a = digit_of(s.get_char(i));
    let b = digit_of(s.get_char(i + 1));
    match (a, b) {
        (Some(x), Some(y)) => Some(10 * x + y),
        _ => None,
    }
}

/// Reads the four-digit number at `i`.
fn read4(s: &str, i: usize) -> (r: Option<u64>)
    requires
        i + 4 <= s@.len(),
        s@.len() <= usize::MAX,
    ensures
        r matches Some(v) ==> num4(s@, i as int) == Some(v as int) && v < 10000,
        r is None ==> num4(s@, i as int) is None,
{
    let a = read2(s, i);
    let b = read2(s, i + 2);
    match (a, b) {
        (Some(x), Some(y)) => Some(100 * x + y),
        _ => None,
    }
}

/// Checks the civil ranges: months 1-12, days fitting the month, hours
/// below 24, minutes and seconds below 60 (years are below 10000 already
/// by having four digits).
fn check_civil(y: u64, m: u64, d: u64, h: u64, mi: u64, s: u64) -> (b: bool)
    requires
        y < 10000,
    ensures
        b == valid_civil(y as int, m as int, d as int, h as int, mi as int, s as int),
{
    1 <= m && m <= 12 && 1 <= d && d <= days_in_month_x(y, m) && h < 24 && mi < 60 && s < 60
}

impl Moment {
    /// Parses iCalendar date/date-time text into a `Moment`.
    ///
    /// Text ending in `Z` is a UTC instant regardless of `time_zone`; text
    /// with a `T` but no `Z` is wall-clock time in `time_zone` (UTC when
    /// none); bare 8-digit dates are dates, anchored at midnight of the
    /// system's local zone so that all-day events span the viewer's day.
    pub fn parse(datetime: &str, time_zone: Option<String>) -> (r: Result<Moment, MomentError>)
        ensures
            parse_rel(datetime@, time_zone.deep_view(), r),
            r matches Ok(mo) ==> mo.in_range(),
    {
        let n = datetime.unicode_len();
        if n == 16 && datetime.get_char(15) == 'Z' && datetime.get_char(8) == 'T' {
            // YYYYMMDDTHHMMSSZ: a UTC instant
            proof {
                assert(datetime@.subrange(0, 15)[8] == datetime@[8]);
            }
            let parts = (read4(datetime, 0), read2(datetime, 4), read2(datetime, 6),
                read2(datetime, 9), read2(datetime, 11), read2(datetime, 13));
            proof {
                let sub = datetime@.subrange(0, 15);
                assert(num4(sub, 0) == num4(datetime@, 0));
                assert(num2(sub, 4) == num2(datetime@, 4));
                assert(num2(sub, 6) == num2(datetime@, 6));
                assert(num2(sub, 9) == num2(datetime@, 9));
                assert(num2(sub, 11) == num2(datetime@, 11));
                assert(num2(sub, 13) == num2(datetime@, 13));
            }
            if let (Some(y), Some(m), Some(d), Some(h), Some(mi), Some(s)) = parts {
                if check_civil(y, m, d, h, mi, s) {
                    Ok(Moment::DateTime(civil_secs_x(y, m, d, h, mi, s)))
                } else {
                    Err(MomentError::MalformedInstant)
                }
            } else {
                Err(MomentError::MalformedInstant)
            }
        } else if n == 15 && datetime.get_char(8) == 'T' {
            // YYYYMMDDTHHMMSS: wall-clock time in the supplied zone
            let parts = (read4(datetime, 0), read2(datetime, 4), read2(datetime, 6),
                read2(datetime, 9), read2(datetime, 11), read2(datetime, 13));
            if let (Some(y), Some(m), Some(d), Some(h), Some(mi), Some(s)) = parts {
                if !check_civil(y, m, d, h, mi, s) {
                    return Err(MomentError::MalformedInstant);
                }
                match time_zone {
                    None => Ok(Moment::DateTime(civil_secs_x(y, m, d, h, mi, s))),
                    Some(z) => match zone_civil_to_unix_x(z.as_str(), y, m, d, h, mi, s) {
                        Some(u) => match u.checked_add(UNIX_EPOCH_SECS) {
                            Some(k) => if 0 <= k && k < SECS_MAX {
                                Ok(Moment::DateTime(k))
                            } else {
                                Err(MomentError::MalformedInstant)
                            },
                            None => Err(MomentError::MalformedInstant),
                        },
                        None => Err(MomentError::MalformedInstant),
                    },
                }
            } else {
                Err(MomentError::MalformedInstant)
            }
        } else if n == 8 {
            // YYYYMMDD: a date, anchored at local midnight
            let parts = (read4(datetime, 0), read2(datetime, 4), read2(datetime, 6));
            if let (Some(y), Some(m), Some(d)) = parts {
                if !(1 <= m && m <= 12 && 1 <= d && d <= days_in_month_x(y, m)) {
                    return Err(MomentError::MalformedInstant);
                }
                proof {
                    lemma_civil_secs_range(y as int, m as int, d as int, 0, 0, 0);
                }
                match local_midnight_unix(y, m, d) {
                    Some(u) => match u.checked_add(UNIX_EPOCH_SECS) {
                        Some(k) => if 0 <= k && k < SECS_MAX {
                            Ok(Moment::Date(k))
                        } else {
                            Err(MomentError::MalformedInstant)
                        },
                        None => Err(MomentError::MalformedInstant),
                    },
                    None => Err(MomentError::MalformedInstant),
                }
            } else {
                Err(MomentError::MalformedInstant)
            }
        } else {
            Err(MomentError::MalformedInstant)
        }
    }
}

} // verus!
