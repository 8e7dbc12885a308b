use vstd::prelude::*;
use vstd::utf8::{decode_utf8, valid_utf8};

use crate::double::FloatBits;

use crate::text::{
    clock_text, date_text, dec, digit, escape, hex_upper, micros_text, push_clock, push_date,
    push_dec, push_escaped, push_hex, push_micros, quoted, signed_dec, zero_pad, str_from_utf8,
    string_from_chars,
};

verus! {

/// A MySQL value.
///
/// A floating-point value is held by the bit pattern of its `f64`
/// (`FloatBits`), which compares as that double does.
#[allow(non_camel_case_types)]
#[derive(Clone, Debug, PartialEq, PartialOrd)]
pub enum Value {
    NULL,
    Bytes(Vec<u8>),
    Int(i64),
    UInt(u64),
    /// The IEEE 754 bit pattern of a double.
    Float(FloatBits),
    /// year, month, day, hour, minutes, seconds, micro seconds
    Date(u16, u8, u8, u8, u8, u8, u32),
    /// is negative, days, hours, minutes, seconds, micro seconds
    Time(bool, u32, u8, u8, u8, u32),
}

/// The mathematical model of a [`Value`].
pub enum ValueModel {
    Null,
    Bytes(Seq<u8>),
    Int(i64),
    UInt(u64),
    Float(u64),
    Date(u16, u8, u8, u8, u8, u8, u32),
    Time(bool, u32, u8, u8, u8, u32),
}

impl View for Value {
    type V = ValueModel;

    open spec fn view(&self) -> ValueModel {
        match self {
            Value::NULL => ValueModel::Null,
            Value::Bytes(b) => ValueModel::Bytes(b@),
            Value::Int(x) => ValueModel::Int(*x),
            Value::UInt(x) => ValueModel::UInt(*x),
            Value::Float(x) => ValueModel::Float(x.0),
            Value::Date(y, m, d, h, i, s, u) => ValueModel::Date(*y, *m, *d, *h, *i, *s, *u),
            Value::Time(n, d, h, i, s, u) => ValueModel::Time(*n, *d, *h, *i, *s, *u),
        }
    }
}

/// The SQL literal of a value, as `Value::into_str` writes it; `None` for
/// a floating-point value, whose decimal form is not stated here.
pub open spec fn sql_text(v: ValueModel) -> Option<Seq<char>> {
    match v {
        ValueModel::Null => Some(seq!['N', 'U', 'L', 'L']),
        ValueModel::Bytes(b) => Some(
            if valid_utf8(b) {
                quoted(escape(decode_utf8(b)))
            } else {
                seq!['0', 'x'] + hex_upper(b)
            },
        ),
        ValueModel::Int(x) => Some(signed_dec(x as int)),
        ValueModel::UInt(x) => Some(dec(x as nat)),
        ValueModel::Float(_) => None,
        ValueModel::Date(y, m, d, h, i, s, u) => Some(
            if y == 0 && m == 0 && d == 0 && h == 0 && i == 0 && s == 0 && u == 0 {
                seq!['\'', '\'']
            } else if h == 0 && i == 0 && s == 0 && u == 0 {
                quoted(date_text(y, m, d))
            } else if u == 0 {
                quoted(date_text(y, m, d) + seq![' '] + clock_text(h as nat, 2, i, s))
            } else {
                quoted(
                    date_text(y, m, d) + seq![' '] + clock_text(h as nat, 2, i, s) + micros_text(u),
                )
            },
        ),
        ValueModel::Time(neg, d, h, i, s, u) => Some(
            if d == 0 && h == 0 && i == 0 && s == 0 && u == 0 {
                seq!['\'', '\'']
            } else {
                quoted(
                    (if neg { seq!['-'] } else { seq![] }) + clock_text((d * 24 + h) as nat, 3, i, s)
                        + (if u == 0 { seq![] } else { micros_text(u) }),
                )
            },
        ),
    }
}

impl Value {
    /// The SQL literal of the value: `NULL`; a quoted and escaped string for
    /// bytes that are UTF-8, else `0x` and their upper-case hex digits;
    /// decimal integers; quoted dates and times. `None` for a float, whose
    /// decimal text is left to the caller.
    pub fn into_str(&self) -> (r: Option<String>)
        ensures
            r is Some <==> sql_text(self@) is Some,
            r matches Some(s) ==> sql_text(self@) == Some(s@),
    {
        let mut out: Vec<char> = Vec::new();
        match self {
            Value::NULL => {
                out.push('N');
                out.push('U');
                out.push('L');
                out.push('L');
            },
            Value::Bytes(x) => {
                match str_from_utf8(x.as_slice()) {
                    Some(s) => {
                        out.push('\'');
                        push_escaped(&mut out, s);
                        out.push('\'');
                    },
                    None => {
                        out.push('0');
                        out.push('x');
                        push_hex(&mut out, x.as_slice());
                    },
                }
            },
            Value::Int(x) => {
                if *x < 0 {
                    out.push('-');
                    let mag: u64 = ((-(*x + 1)) as u64) + 1;
                    push_dec(&mut out, mag);
                } else {
                    push_dec(&mut out, *x as u64);
                }
            },
            Value::UInt(x) => {
                push_dec(&mut out, *x);
            },
            Value::Float(_) => {
                return None;
            },
            Value::Date(y, m, d, h, i, s, u) => {
                if *y == 0 && *m == 0 && *d == 0 && *h == 0 && *i == 0 && *s == 0 && *u == 0 {
                    out.push('\'');
                    out.push('\'');
                } else {
                    out.push('\'');
                    push_date(&mut out, *y, *m, *d);
                    if !(*h == 0 && *i == 0 && *s == 0 && *u == 0) {
                        out.push(' ');
                        push_clock(&mut out, *h as u64, 2, *i, *s);
                        if *u != 0 {
                            push_micros(&mut out, *u);
                        }
                    }
                    out.push('\'');
                }
            },
            Value::Time(neg, d, h, i, s, u) => {
                if *d == 0 && *h == 0 && *i == 0 && *s == 0 && *u == 0 {
                    out.push('\'');
                    out.push('\'');
                } else {
                    out.push('\'');
                    if *neg {
                        out.push('-');
                    }
                    push_clock(&mut out, (*d as u64) * 24 + (*h as u64), 3, *i, *s);
                    if *u != 0 {
                        push_micros(&mut out, *u);
                    }
                    out.push('\'');
                }
            },
        }
        let r = string_from_chars(&out);
        assert(sql_text(self@) == Some(out@));
        Some(r)
    }

    /// A copy of the value.
    pub fn copy(&self) -> (r: Value)
        ensures
            r@ == self@,
    {
        match self {
            Value::NULL => Value::NULL,
            Value::Bytes(b) => Value::Bytes(b.clone()),
            Value::Int(x) => Value::Int(*x),
            Value::UInt(x) => Value::UInt(*x),
            Value::Float(x) => Value::Float(*x),
            Value::Date(y, m, d, h, i, s, u) => Value::Date(*y, *m, *d, *h, *i, *s, *u),
            Value::Time(n, d, h, i, s, u) => Value::Time(*n, *d, *h, *i, *s, *u),
        }
    }

    pub fn is_bytes(&self) -> (r: bool)
        ensures
            r == (self is Bytes),
    {
        match self {
            Value::Bytes(..) => true,
            _ => false,
        }
    }

    pub fn bytes_ref(&self) -> (r: &[u8])
        requires
            self is Bytes,
        ensures
            self@ == ValueModel::Bytes(r@),
    {
        match self {
            Value::Bytes(x) => x.as_slice(),
            _ => {
                proof {
                    assert(false);
                }
                &[]
            },
        }
    }
    /// The bytes of a `Bytes` value, taken out of it.
    pub fn unwrap_bytes(self) -> (r: Vec<u8>)
        requires
            self is Bytes,
        ensures
            self@ == ValueModel::Bytes(r@),
    {
        match self {
            Value::Bytes(x) => x,
            _ => {
                proof {
                    assert(false);
                }
                Vec::new()
            },
        }
    }

    /// The bytes of a `Bytes` value, or `y` for any other value.
    pub fn unwrap_bytes_or(self, y: Vec<u8>) -> (r: Vec<u8>)
        ensures
            r@ == (match self@ {
                ValueModel::Bytes(b) => b,
                _ => y@,
            }),
    {
        match self {
            Value::Bytes(x) => x,
            _ => y,
        }
    }

    pub fn is_int(&self) -> (r: bool)
        ensures
            r == (self is Int),
    {
        match self {
            Value::Int(..) => true,
            _ => false,
        }
    }

    pub fn get_int(&self) -> (r: i64)
        requires
            self is Int,
        ensures
            self@ == ValueModel::Int(r),
    {
        match self {
            Value::Int(x) => *x,
            _ => {
                proof {
                    assert(false);
                }
                0
            },
        }
    }

    pub fn get_int_or(&self, y: i64) -> (r: i64)
        ensures
            r == (match self@ {
                ValueModel::Int(x) => x,
                _ => y,
            }),
    {
        match self {
            Value::Int(x) => *x,
            _ => y,
        }
    }

    pub fn is_uint(&self) -> (r: bool)
        ensures
            r == (self is UInt),
    {
        match self {
            Value::UInt(..) => true,
            _ => false,
        }
    }

    pub fn get_uint(&self) -> (r: u64)
        requires
            self is UInt,
        ensures
            self@ == ValueModel::UInt(r),
    {
        match self {
            Value::UInt(x) => *x,
            _ => {
                proof {
                    assert(false);
                }
                0
            },
        }
    }

    pub fn get_uint_or(&self, y: u64) -> (r: u64)
        ensures
            r == (match self@ {
                ValueModel::UInt(x) => x,
                _ => y,
            }),
    {
        match self {
            Value::UInt(x) => *x,
            _ => y,
        }
    }

    pub fn is_float(&self) -> (r: bool)
        ensures
            r == (self is Float),
    {
        match self {
            Value::Float(..) => true,
            _ => false,
        }
    }

    pub fn is_date(&self) -> (r: bool)
        ensures
            r == (self is Date),
    {
        match self {
            Value::Date(..) => true,
            _ => false,
        }
    }

    pub fn get_year(&self) -> (r: u16)
        requires
            self is Date,
        ensures
            self@ matches ValueModel::Date(y, _, _, _, _, _, _) && y == r,
    {
        match self {
            Value::Date(y, _, _, _, _, _, _) => *y,
            _ => {
                proof {
                    assert(false);
                }
                0
            },
        }
    }

    pub fn get_month(&self) -> (r: u8)
        requires
            self is Date,
        ensures
            self@ matches ValueModel::Date(_, m, _, _, _, _, _) && m == r,
    {
        match self {
            Value::Date(_, m, _, _, _, _, _) => *m,
            _ => {
                proof {
                    assert(false);
                }
                0
            },
        }
    }

    pub fn get_day(&self) -> (r: u8)
        requires
            self is Date,
        ensures
            self@ matches ValueModel::Date(_, _, d, _, _, _, _) && d == r,
    {
        match self {
            Value::Date(_, _, d, _, _, _, _) => *d,
            _ => {
                proof {
                    assert(false);
                }
                0
            },
        }
    }

    pub fn is_time(&self) -> (r: bool)
        ensures
            r == (self is Time),
    {
        match self {
            Value::Time(..) => true,
            _ => false,
        }
    }

    pub fn is_neg(&self) -> (r: bool)
        requires
            self is Time,
        ensures
            self@ matches ValueModel::Time(n, _, _, _, _, _) && n == r,
    {
        match self {
            Value::Time(n, _, _, _, _, _) => *n,
            _ => {
                proof {
                    assert(false);
                }
                false
            },
        }
    }

    pub fn get_days(&self) -> (r: u32)
        requires
            self is Time,
        ensures
            self@ matches ValueModel::Time(_, d, _, _, _, _) && d == r,
    {
        match self {
            Value::Time(_, d, _, _, _, _) => *d,
            _ => {
                proof {
                    assert(false);
                }
                0
            },
        }
    }

    pub fn get_hour(&self) -> (r: u8)
        requires
            self is Date || self is Time,
        ensures
            match self@ {
                ValueModel::Date(_, _, _, h, _, _, _) => h == r,
                ValueModel::Time(_, _, h, _, _, _) => h == r,
                _ => false,
            },
    {
        match self {
            Value::Date(_, _, _, h, _, _, _) => *h,
            Value::Time(_, _, h, _, _, _) => *h,
            _ => {
                proof {
                    assert(false);
                }
                0
            },
        }
    }

    pub fn get_min(&self) -> (r: u8)
        requires
            self is Date || self is Time,
        ensures
            match self@ {
                ValueModel::Date(_, _, _, _, i, _, _) => i == r,
                ValueModel::Time(_, _, _, i, _, _) => i == r,
                _ => false,
            },
    {
        match self {
            Value::Date(_, _, _, _, i, _, _) => *i,
            Value::Time(_, _, _, i, _, _) => *i,
            _ => {
                proof {
                    assert(false);
                }
                0
            },
        }
    }

    pub fn get_sec(&self) -> (r: u8)
        requires
            self is Date || self is Time,
        ensures
            match self@ {
                ValueModel::Date(_, _, _, _, _, s, _) => s == r,
                ValueModel::Time(_, _, _, _, s, _) => s == r,
                _ => false,
            },
    {
        match self {
            Value::Date(_, _, _, _, _, s, _) => *s,
            Value::Time(_, _, _, _, s, _) => *s,
            _ => {
                proof {
                    assert(false);
                }
                0
            },
        }
    }

    pub fn get_usec(&self) -> (r: u32)
        requires
            self is Date || self is Time,
        ensures
            match self@ {
                ValueModel::Date(_, _, _, _, _, _, u) => u == r,
                ValueModel::Time(_, _, _, _, _, u) => u == r,
                _ => false,
            },
    {
        match self {
            Value::Date(_, _, _, _, _, _, u) => *u,
            Value::Time(_, _, _, _, _, u) => *u,
            _ => {
                proof {
                    assert(false);
                }
                0
            },
        }
    }
}

/// The decimal text of a number is not empty and does not start with a
/// minus sign, nor does its zero-padded form.
proof fn lemma_dec_not_sign(n: nat)
    ensures
        dec(n).len() >= 1,
        dec(n)[0] != '-',
        zero_pad(dec(n), 3)[0] != '-',
    decreases n,
{
    if n >= 10 {
        lemma_dec_not_sign(n / 10);
        assert(dec(n)[0] == dec(n / 10)[0]);
    }
}

/// A number below 100 written with two digits: its tens and its units.
proof fn lemma_two_digits(n: nat)
    requires
        n < 100,
    ensures
        zero_pad(dec(n), 2) == seq![digit((n / 10) as int), digit((n % 10) as int)],
{
    if n < 10 {
        assert(zero_pad(dec(n), 2) =~= seq!['0', digit(n as int)]);
    } else {
        assert(dec(n / 10) == seq![digit((n / 10) as int)]);
        assert(zero_pad(dec(n), 2) =~= seq![digit((n / 10) as int), digit((n % 10) as int)]);
    }
}

/// The literal of a time is the empty string `''` exactly when all its
/// fields (days, hours, minutes, seconds, microseconds) are zero; any other
/// time is quoted, starts with `-` exactly when negative, and, without
/// microseconds, ends with `:MM:SS` where `MM` and `SS` are the two digits
/// of the minutes and seconds (below 100). Otherwise it is the hours
/// (days times 24 plus hours, at least three digits), minutes and seconds,
/// and the microseconds when there are any.
#[verifier::rlimit(60)]
#[verifier::spinoff_prover]
pub proof fn lemma_time_text(neg: bool, d: u32, h: u8, i: u8, s: u8, u: u32)
    ensures
        sql_text(ValueModel::Time(neg, d, h, i, s, u)) == Some(seq!['\'', '\''])
            <==> (d == 0 && h == 0 && i == 0 && s == 0 && u == 0),
        !(d == 0 && h == 0 && i == 0 && s == 0 && u == 0) ==> sql_text(
            ValueModel::Time(neg, d, h, i, s, u),
        ) == Some(
            quoted(
                (if neg { seq!['-'] } else { seq![] }) + clock_text((d * 24 + h) as nat, 3, i, s)
                    + (if u == 0 { seq![] } else { micros_text(u) }),
            ),
        ),
        !(d == 0 && h == 0 && i == 0 && s == 0 && u == 0) ==> ({
            let t = sql_text(ValueModel::Time(neg, d, h, i, s, u))->0;
            &&& t.len() >= 10
            &&& t[0] == '\''
            &&& t[t.len() - 1] == '\''
            &&& (t[1] == '-' <==> neg)
        }),
        !(d == 0 && h == 0 && i == 0 && s == 0) && u == 0 && i < 100 && s < 100 ==> ({
            let t = sql_text(ValueModel::Time(neg, d, h, i, s, u))->0;
            &&& t[t.len() - 7] == ':'
            &&& t[t.len() - 6] == digit((i / 10) as int)
            &&& t[t.len() - 5] == digit((i % 10) as int)
            &&& t[t.len() - 4] == ':'
            &&& t[t.len() - 3] == digit((s / 10) as int)
            &&& t[t.len() - 2] == digit((s % 10) as int)
        }),
{
    if !(d == 0 && h == 0 && i == 0 && s == 0 && u == 0) {
        let sign: Seq<char> = if neg { seq!['-'] } else { seq![] };
        let hours = zero_pad(dec((d * 24 + h) as nat), 3);
        let body = sign + clock_text((d * 24 + h) as nat, 3, i, s) + (if u == 0 { seq![] } else { micros_text(u) });
        let t = quoted(body);
        assert(hours.len() >= 3);
        assert(zero_pad(dec(i as nat), 2).len() >= 2);
        assert(zero_pad(dec(s as nat), 2).len() >= 2);
        assert(t.len() >= 10);
        assert(t[0] == '\'');
        assert(t[1] == body[0]);
        if !neg {
            lemma_dec_not_sign((d * 24 + h) as nat);
            assert(body[0] == hours[0]);
        }
        if u == 0 && i < 100 && s < 100 {
            lemma_two_digits(i as nat);
            lemma_two_digits(s as nat);
            assert(t =~= seq!['\''] + sign + hours + seq![
                ':',
                digit((i / 10) as int),
                digit((i % 10) as int),
                ':',
                digit((s / 10) as int),
                digit((s % 10) as int),
                '\'',
            ]);
        }
    }
}

/// The literal of a date is the empty string `''` exactly when all its
/// fields are zero; any other date is quoted and starts with its year.
pub proof fn lemma_date_text(y: u16, m: u8, d: u8, h: u8, i: u8, s: u8, u: u32)
    ensures
        sql_text(ValueModel::Date(y, m, d, h, i, s, u)) == Some(seq!['\'', '\''])
            <==> (y == 0 && m == 0 && d == 0 && h == 0 && i == 0 && s == 0 && u == 0),
        !(y == 0 && m == 0 && d == 0 && h == 0 && i == 0 && s == 0 && u == 0) ==> ({
            let t = sql_text(ValueModel::Date(y, m, d, h, i, s, u))->0;
            &&& t[0] == '\''
            &&& t.subrange(1, (1 + zero_pad(dec(y as nat), 4).len()) as int) == zero_pad(dec(y as nat), 4)
        }),
{
    if !(y == 0 && m == 0 && d == 0 && h == 0 && i == 0 && s == 0 && u == 0) {
        let t = sql_text(ValueModel::Date(y, m, d, h, i, s, u))->0;
        let yt = zero_pad(dec(y as nat), 4);
        assert(yt.len() >= 4);
        assert(date_text(y, m, d).len() >= 10);
        assert(t.len() >= 12);
        assert(t.subrange(1, (1 + yt.len()) as int) =~= yt);
    }
}

} // verus!
