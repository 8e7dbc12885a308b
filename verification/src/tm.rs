use vstd::prelude::*;

use crate::text::str_from_utf8;
use crate::value::{Value, ValueModel};

verus! {

/// The broken-down time fields that the conversions between values and
/// points in time read and write: those of the `time` crate's `Tm`
/// (`tm_year` counts from 1900, `tm_mon` from 0).
#[derive(Clone, Copy, Debug, PartialEq, Eq)]
pub struct TmFields {
    pub tm_sec: i32,
    pub tm_min: i32,
    pub tm_hour: i32,
    pub tm_mday: i32,
    pub tm_mon: i32,
    pub tm_year: i32,
    pub tm_wday: i32,
    pub tm_yday: i32,
    pub tm_isdst: i32,
    pub tm_utcoff: i32,
    pub tm_nsec: i32,
}

/// Whether `c` is an ASCII decimal digit.
pub open spec fn is_digit_char(c: char) -> bool {
    '0' <= c && c <= '9'
}

/// The number of leading digits of `s`, counting at most `max` of them.
pub open spec fn lead_digits(s: Seq<char>, max: nat) -> nat
    decreases max,
{
    if max == 0 || s.len() == 0 || !is_digit_char(s[0]) {
        0
    } else {
        1 + lead_digits(s.drop_first(), (max - 1) as nat)
    }
}

/// The number written by the decimal digits `s`.
pub open spec fn digits_number(s: Seq<char>) -> int
    decreases s.len(),
{
    if s.len() == 0 {
        0
    } else {
        digits_number(s.drop_last()) * 10 + (s.last() as int - '0' as int)
    }
}

/// Reads the leading digits of `s` (at most `max_digits`, at least
/// `min_digits`) as a number in `[lo, hi]`: the number and the text after
/// its digits.
pub open spec fn read_field(s: Seq<char>, min_digits: nat, max_digits: nat, lo: int, hi: int) -> Option<
    (int, Seq<char>),
> {
    let n = lead_digits(s, max_digits);
    let v = digits_number(s.take(n as int));
    if n >= min_digits && lo <= v && v <= hi {
        Some((v, s.skip(n as int)))
    } else {
        None
    }
}

/// Reads the character `c` at the front of `s`: the text after it.
pub open spec fn read_char(s: Seq<char>, c: char) -> Option<Seq<char>> {
    if s.len() > 0 && s[0] == c {
        Some(s.drop_first())
    } else {
        None
    }
}

/// What `time::strptime` reads from `s` with the format `%Y-%m-%d`, or
/// with `%Y-%m-%d %H:%M:%S` when `with_time`: a year of exactly four
/// digits, a month of one or two digits in 1..=12 and a day in 1..=31,
/// separated by `-`; then, with the time, a space, an hour in 0..=23, a
/// minute in 0..=59 and a second in 0..=60 of one or two digits, separated
/// by `:`. The year counts from 1900 and the month from 0; every other
/// field is 0; text after the last field is ignored. `None` when the text
/// does not match.
pub open spec fn strptime_fields(s: Seq<char>, with_time: bool) -> Option<TmFields> {
    match read_field(s, 4, 4, 0, 9999) {
        None => None,
        Some((y, r1)) => match read_char(r1, '-') {
            None => None,
            Some(r2) => match read_field(r2, 1, 2, 1, 12) {
                None => None,
                Some((m, r3)) => match read_char(r3, '-') {
                    None => None,
                    Some(r4) => match read_field(r4, 1, 2, 1, 31) {
                        None => None,
                        Some((d, r5)) => {
                            let date = TmFields {
                                tm_sec: 0,
                                tm_min: 0,
                                tm_hour: 0,
                                tm_mday: d as i32,
                                tm_mon: (m - 1) as i32,
                                tm_year: (y - 1900) as i32,
                                tm_wday: 0,
                                tm_yday: 0,
                                tm_isdst: 0,
                                tm_utcoff: 0,
                                tm_nsec: 0,
                            };
                            if !with_time {
                                Some(date)
                            } else {
                                strptime_clock(r5, date)
                            }
                        },
                    },
                },
            },
        },
    }
}

/// The time part of `%Y-%m-%d %H:%M:%S` after the date: a space, then
/// hour, minute and second (`strptime_fields`), added to `date`.
pub open spec fn strptime_clock(r: Seq<char>, date: TmFields) -> Option<TmFields> {
    match read_char(r, ' ') {
        None => None,
        Some(r1) => match read_field(r1, 1, 2, 0, 23) {
            None => None,
            Some((h, r2)) => match read_char(r2, ':') {
                None => None,
                Some(r3) => match read_field(r3, 1, 2, 0, 59) {
                    None => None,
                    Some((mi, r4)) => match read_char(r4, ':') {
                        None => None,
                        Some(r5) => match read_field(r5, 1, 2, 0, 60) {
                            None => None,
                            Some((sec, _)) => Some(
                                TmFields {
                                    tm_hour: h as i32,
                                    tm_min: mi as i32,
                                    tm_sec: sec as i32,
                                    ..date
                                },
                            ),
                        },
                    },
                },
            },
        },
    }
}

/// `time::strptime` with one of the two formats the library reads (with
/// other formats it can panic): the fields it reads (`strptime_fields`),
/// `None` when the text does not match the format.
#[verifier::external_body]
fn strptime(s: &str, format: &str) -> (r: Option<TmFields>)
    requires
        format@ == datetime_format() || format@ == date_format(),
    ensures
        r == strptime_fields(s@, format@ == datetime_format()),
{
    match time::strptime(s, format) {
        Ok(t) => Some(TmFields { tm_sec: t.tm_sec, tm_min: t.tm_min, tm_hour: t.tm_hour,
            tm_mday: t.tm_mday, tm_mon: t.tm_mon, tm_year: t.tm_year, tm_wday: t.tm_wday,
            tm_yday: t.tm_yday, tm_isdst: t.tm_isdst, tm_utcoff: t.tm_utcoff, tm_nsec: t.tm_nsec }),
        Err(_) => None,
    }
}

/// The date value of broken-down time fields, as a point in time converts:
/// the fields cast to the widths of the date's fields, the year counted
/// from 0 and the month from 1, the nanoseconds made microseconds.
pub open spec fn tm_date(t: TmFields) -> ValueModel {
    ValueModel::Date(
        (t.tm_year + 1900) as u16,
        (t.tm_mon + 1) as u8,
        t.tm_mday as u8,
        t.tm_hour as u8,
        t.tm_min as u8,
        t.tm_sec as u8,
        (t.tm_nsec as u32) / 1000,
    )
}

/// The date value of broken-down time fields (`tm_date`).
pub fn tm_to_value(t: &TmFields) -> (r: Value)
    ensures
        r@ == tm_date(*t),
{
    Value::Date(
        (t.tm_year as i64 + 1900) as u16,
        (t.tm_mon as i64 + 1) as u8,
        t.tm_mday as u8,
        t.tm_hour as u8,
        t.tm_min as u8,
        t.tm_sec as u8,
        (t.tm_nsec as u32) / 1000,
    )
}

/// `%Y-%m-%d %H:%M:%S`
pub open spec fn datetime_format() -> Seq<char> {
    seq!['%', 'Y', '-', '%', 'm', '-', '%', 'd', ' ', '%', 'H', ':', '%', 'M', ':', '%', 'S']
}

/// `%Y-%m-%d`
pub open spec fn date_format() -> Seq<char> {
    seq!['%', 'Y', '-', '%', 'm', '-', '%', 'd']
}

/// The broken-down time fields of a value, with the given offset from UTC
/// and daylight-saving flag: a date's fields (year from 1900, month from 0,
/// microseconds made nanoseconds, week and year day 0); for bytes that are
/// UTF-8, what `strptime` reads with a date-and-time format, or else with a
/// date format; `None` otherwise.
pub open spec fn tm_of_value(v: ValueModel, utcoff: i32, isdst: i32) -> Option<TmFields> {
    match v {
        ValueModel::Date(y, m, d, h, i, s, u) => Some(
            TmFields {
                tm_year: (y - 1900) as i32,
                tm_mon: (m - 1) as i32,
                tm_mday: d as i32,
                tm_hour: h as i32,
                tm_min: i as i32,
                tm_sec: s as i32,
                tm_nsec: ((u as i32) * 1000) as i32,
                tm_utcoff: utcoff,
                tm_wday: 0,
                tm_yday: 0,
                tm_isdst: isdst,
            },
        ),
        ValueModel::Bytes(b) => if vstd::utf8::valid_utf8(b) {
            let s = vstd::utf8::decode_utf8(b);
            let parsed = match strptime_fields(s, true) {
                Some(t) => Some(t),
                None => strptime_fields(s, false),
            };
            match parsed {
                Some(t) => Some(TmFields { tm_utcoff: utcoff, tm_isdst: isdst, ..t }),
                None => None,
            }
        } else {
            None
        },
        _ => None,
    }
}

/// The broken-down time fields of a value (`tm_of_value`). A date's
/// microseconds, taken as an `i32`, must stay one once made nanoseconds.
pub fn tm_from_value(v: &Value, utcoff: i32, isdst: i32) -> (r: Option<TmFields>)
    requires
        v@ matches ValueModel::Date(_, _, _, _, _, _, u) ==> i32::MIN <= (u as i32) * 1000
            <= i32::MAX,
    ensures
        r == tm_of_value(v@, utcoff, isdst),
{
    match v {
        Value::Date(y, m, d, h, i, s, u) => Some(
            TmFields {
                tm_year: *y as i32 - 1_900,
                tm_mon: *m as i32 - 1,
                tm_mday: *d as i32,
                tm_hour: *h as i32,
                tm_min: *i as i32,
                tm_sec: *s as i32,
                tm_nsec: *u as i32 * 1_000,
                tm_utcoff: utcoff,
                tm_wday: 0,
                tm_yday: 0,
                tm_isdst: isdst,
            },
        ),
        Value::Bytes(bts) => match str_from_utf8(bts.as_slice()) {
            Some(s) => {
                proof {
                    reveal_strlit("%Y-%m-%d %H:%M:%S");
                    reveal_strlit("%Y-%m-%d");
                    assert("%Y-%m-%d %H:%M:%S"@ =~= datetime_format());
                    assert("%Y-%m-%d"@ =~= date_format());
                }
                let first = strptime(s, "%Y-%m-%d %H:%M:%S");
                let parsed = match first {
                    Some(t) => Some(t),
                    None => strptime(s, "%Y-%m-%d"),
                };
                match parsed {
                    Some(t) => Some(TmFields { tm_utcoff: utcoff, tm_isdst: isdst, ..t }),
                    None => None,
                }
            },
            None => None,
        },
        _ => None,
    }
}


/// A date read into broken-down time fields and written back as a date
/// is the same date, when its microseconds made nanoseconds fit in an
/// `i32`.
pub proof fn lemma_date_tm_roundtrip(v: ValueModel, utcoff: i32, isdst: i32)
    requires
        v is Date,
        v matches ValueModel::Date(_, _, _, _, _, _, u) ==> u <= 2_147_483,
    ensures
        tm_of_value(v, utcoff, isdst) matches Some(t) && tm_date(t) == v,
{
    if let ValueModel::Date(y, m, d, h, i, s, u) = v {
        let t = tm_of_value(v, utcoff, isdst)->0;
        assert((u as i32) as int == u);
        assert(t.tm_nsec == u * 1000);
    }
}

} // verus!
