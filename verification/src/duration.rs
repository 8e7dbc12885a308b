use vstd::prelude::*;
use vstd::slice::slice_subrange;

use crate::convert::{FromValue, ToValue};
use crate::numparse::{is_digit, lemma_parse_int_bound, lemma_pow10_add, parse_int, parse_int_bytes, pow10};
use crate::value::{Value, ValueModel};

verus! {

/// A signed span of time with nanosecond precision, held as the `time`
/// crate's `Duration` reports it: the whole seconds (rounded toward zero)
/// and the remaining nanoseconds, which have the sign of the span.
#[derive(Clone, Copy, Debug, PartialEq, Eq)]
pub struct Duration {
    secs: i64,
    nanos: i32,
}

pub const NANOS_PER_SEC: i64 = 1_000_000_000;

impl Duration {
    #[verifier::type_invariant]
    spec fn inv(self) -> bool {
        &&& -NANOS_PER_SEC < self.nanos < NANOS_PER_SEC
        &&& self.secs > 0 ==> self.nanos >= 0
        &&& self.secs < 0 ==> self.nanos <= 0
    }

    /// The span in nanoseconds.
    pub closed spec fn nanos_total(self) -> int {
        self.secs * NANOS_PER_SEC + self.nanos
    }

    /// Whether whole seconds `secs` and nanoseconds `nanos` make a span:
    /// `nanos` is under a second and does not have the opposite sign.
    pub open spec fn valid_parts(secs: i64, nanos: i32) -> bool {
        &&& -NANOS_PER_SEC < nanos < NANOS_PER_SEC
        &&& secs > 0 ==> nanos >= 0
        &&& secs < 0 ==> nanos <= 0
    }

    /// The span of `secs` seconds and `nanos` nanoseconds, when they are
    /// valid parts (`valid_parts`).
    pub fn new(secs: i64, nanos: i32) -> (r: Option<Duration>)
        ensures
            r is Some <==> Self::valid_parts(secs, nanos),
            r matches Some(d) ==> d.nanos_total() == secs * NANOS_PER_SEC + nanos,
    {
        if -NANOS_PER_SEC < nanos as i64 && (nanos as i64) < NANOS_PER_SEC && (secs <= 0 || nanos >= 0)
            && (secs >= 0 || nanos <= 0) {
            Some(Duration { secs, nanos })
        } else {
            None
        }
    }

    /// The whole seconds of the span, rounded toward zero.
    pub fn num_seconds(&self) -> (r: i64)
        ensures
            r * NANOS_PER_SEC + self.subsec_spec() == self.nanos_total(),
            Self::valid_parts(r, self.subsec_spec() as i32),
    {
        proof {
            use_type_invariant(self);
        }
        self.secs
    }

    /// The nanoseconds of the span beyond its whole seconds.
    pub closed spec fn subsec_spec(self) -> int {
        self.nanos as int
    }

    /// The nanoseconds of the span beyond its whole seconds, with the sign
    /// of the span.
    pub fn subsec_nanos(&self) -> (r: i32)
        ensures
            r == self.subsec_spec(),
    {
        self.nanos
    }

    /// The span of `n` units of `unit` nanoseconds (`unit` at most a
    /// second and dividing it).
    fn from_units(n: i64, unit: i64) -> (r: Duration)
        requires
            unit == 1_000 || unit == 1_000_000,
        ensures
            r.nanos_total() == n * unit,
    {
        let per_sec: u64 = (NANOS_PER_SEC / unit) as u64;
        let neg = n < 0;
        let mag: u64 = if neg { ((-(n + 1)) as u64) + 1 } else { n as u64 };
        let whole = mag / per_sec;
        let rest = mag % per_sec;
        proof {
            assert(mag == whole * per_sec + rest) by (nonlinear_arith)
                requires
                    whole == mag / per_sec,
                    rest == mag % per_sec,
                    per_sec > 0,
            ;
            assert(whole <= mag / 1000) by (nonlinear_arith)
                requires
                    whole == mag / per_sec,
                    per_sec >= 1000,
            ;
        }
        let rest_nanos = (rest as i64) * unit;
        assert(per_sec * unit == NANOS_PER_SEC);
        assert(rest_nanos < NANOS_PER_SEC) by (nonlinear_arith)
            requires
                rest < per_sec,
                rest_nanos == rest * unit,
                per_sec * unit == NANOS_PER_SEC,
                unit > 0,
        ;
        let (secs, nanos) = if neg {
            (-(whole as i64), -(rest_nanos as i32))
        } else {
            (whole as i64, rest_nanos as i32)
        };
        proof {
            assert(mag * unit == whole * NANOS_PER_SEC + rest_nanos) by (nonlinear_arith)
                requires
                    mag == whole * per_sec + rest,
                    rest_nanos == rest * unit,
                    per_sec * unit == NANOS_PER_SEC,
            ;
        }
        Duration { secs, nanos }
    }

    /// The span of `us` microseconds.
    pub fn microseconds(us: i64) -> (r: Duration)
        ensures
            r.nanos_total() == us * 1000,
    {
        Self::from_units(us, 1_000)
    }

    /// The span of `ms` milliseconds.
    pub fn milliseconds(ms: i64) -> (r: Duration)
        ensures
            r.nanos_total() == ms * 1_000_000,
    {
        Self::from_units(ms, 1_000_000)
    }
}

impl DeepView for Duration {
    type V = int;

    open spec fn deep_view(&self) -> int {
        self.nanos_total()
    }
}

/// The `Time` value of a span of `t` nanoseconds: negative when the span
/// is below zero, then its whole days (truncated to 32 bits), hours,
/// minutes and seconds and its microseconds, all of its absolute value.
pub open spec fn duration_time(t: int) -> ValueModel {
    let a: nat = if t < 0 { (-t) as nat } else { t as nat };
    let secs: nat = a / 1_000_000_000;
    ValueModel::Time(
        t < 0,
        (secs / 86400) as u32,
        ((secs % 86400) / 3600) as u8,
        ((secs % 3600) / 60) as u8,
        (secs % 60) as u8,
        ((a % 1_000_000_000) / 1000) as u32,
    )
}

impl ToValue for Duration {
    open spec fn to_value_spec(&self) -> ValueModel {
        duration_time(self.deep_view())
    }

    fn to_value(&self) -> (r: Value) {
        proof {
            use_type_invariant(self);
        }
        let neg = self.secs < 0 || self.nanos < 0;
        let secs: u64 = if self.secs < 0 { ((-(self.secs + 1)) as u64) + 1 } else { self.secs as u64 };
        let sub: u64 = if self.nanos < 0 { (-self.nanos) as u64 } else { self.nanos as u64 };
        proof {
            let t = self.nanos_total();
            let a: int = if t < 0 { -t } else { t };
            assert(a == secs * 1_000_000_000 + sub) by (nonlinear_arith)
                requires
                    t == self.secs * 1_000_000_000 + self.nanos,
                    a == (if t < 0 { -t } else { t }),
                    secs == (if self.secs < 0 { -self.secs } else { self.secs as int }),
                    sub == (if self.nanos < 0 { -self.nanos } else { self.nanos as int }),
                    self.secs > 0 ==> self.nanos >= 0,
                    self.secs < 0 ==> self.nanos <= 0,
                    -1_000_000_000 < self.nanos < 1_000_000_000,
            ;
            assert(a / 1_000_000_000 == secs && a % 1_000_000_000 == sub) by (nonlinear_arith)
                requires
                    a == secs * 1_000_000_000 + sub,
                    sub < 1_000_000_000,
            ;
            assert(neg == (t < 0)) by (nonlinear_arith)
                requires
                    t == self.secs * 1_000_000_000 + self.nanos,
                    neg == (self.secs < 0 || self.nanos < 0),
                    self.secs > 0 ==> self.nanos >= 0,
                    self.secs < 0 ==> self.nanos <= 0,
                    -1_000_000_000 < self.nanos < 1_000_000_000,
            ;
        }
        Value::Time(
            neg,
            (secs / 86400) as u32,
            ((secs % 86400) / 3600) as u8,
            ((secs % 3600) / 60) as u8,
            (secs % 60) as u8,
            (sub / 1000) as u32,
        )
    }
}


/// The index of the first `.` in `s`.
pub open spec fn find_dot(s: Seq<u8>) -> Option<int>
    decreases s.len(),
{
    if s.len() == 0 {
        None
    } else if s[0] == 0x2E {
        Some(0)
    } else {
        match find_dot(s.drop_first()) {
            Some(i) => Some(i + 1),
            None => None,
        }
    }
}

proof fn lemma_find_dot(s: Seq<u8>, i: int)
    requires
        0 <= i <= s.len(),
        forall|j: int| 0 <= j < i ==> s[j] != 0x2E,
    ensures
        i == s.len() ==> find_dot(s) is None,
        i < s.len() && s[i] == 0x2E ==> find_dot(s) == Some(i),
    decreases i,
{
    if i > 0 {
        lemma_find_dot(s.drop_first(), i - 1);
    }
}

/// Splits the fraction off the text of a time: the clock part and the
/// fraction in microseconds. Without a dot the fraction is 0; after a
/// single dot it is the integer of at most six characters that follows,
/// scaled to six decimals (none at all counts as 0); `None` for more dots
/// or any other fraction.
pub open spec fn split_fraction(s: Seq<u8>) -> Option<(Seq<u8>, int)> {
    match find_dot(s) {
        None => Some((s, 0)),
        Some(p) => {
            let f = s.skip(p + 1);
            if find_dot(f) is Some {
                None
            } else if f.len() <= 6 && parse_int(f, i64::MIN as int, i64::MAX as int) is Some {
                Some((s.take(p), parse_int(f, i64::MIN as int, i64::MAX as int)->0 * pow10((6 - f.len()) as nat)))
            } else if f.len() == 0 {
                Some((s.take(p), 0))
            } else {
                None
            }
        },
    }
}

/// Whether `b` is a digit from `'0'` to `hi`.
pub open spec fn digit_upto(b: u8, hi: u8) -> bool {
    0x30 <= b <= hi
}

/// The microseconds of the clock text `HHH:MM:SS` (first hour digit up to
/// 8) or `HH:MM:SS`, the first minute and second digits up to 5.
///
/// The three-digit form reads each digit's value (`d & 0x0F`). The
/// two-digit form combines each digit with a bitwise or (`d | 0x0F`), which
/// is 63 for every digit: its hours, minutes and seconds are each 693,
/// whatever the digits, so every such clock text is 2537073 seconds.
pub open spec fn clock_micros(c: Seq<u8>) -> Option<int> {
    if c.len() == 9 && digit_upto(c[0], 0x38) && is_digit(c[1]) && is_digit(c[2]) && c[3] == 0x3A
        && digit_upto(c[4], 0x35) && is_digit(c[5]) && c[6] == 0x3A && digit_upto(c[7], 0x35)
        && is_digit(c[8]) {
        let h = (c[0] - 0x30) * 100 + (c[1] - 0x30) * 10 + (c[2] - 0x30);
        let m = (c[4] - 0x30) * 10 + (c[5] - 0x30);
        let sec = (c[7] - 0x30) * 10 + (c[8] - 0x30);
        Some(sec * 1_000_000 + m * 60 * 1_000_000 + h * 60 * 60 * 1_000_000)
    } else if c.len() == 8 && is_digit(c[0]) && is_digit(c[1]) && c[2] == 0x3A && digit_upto(
        c[3],
        0x35,
    ) && is_digit(c[4]) && c[5] == 0x3A && digit_upto(c[6], 0x35) && is_digit(c[7]) {
        let h = (c[0] | 0x0F) * 10 + (c[1] | 0x0F);
        let m = (c[3] | 0x0F) * 10 + (c[4] | 0x0F);
        let sec = (c[6] | 0x0F) * 10 + (c[7] | 0x0F);
        Some(sec * 1_000_000 + m * 60 * 1_000_000 + h * 60 * 60 * 1_000_000)
    } else {
        None
    }
}

/// The microseconds of the time text `s`: an optional `-`, the clock,
/// and an optional fraction (`split_fraction`, `clock_micros`); the sign
/// applies to the whole.
pub open spec fn time_text_micros(s: Seq<u8>) -> Option<int> {
    let neg = s.len() > 0 && s[0] == 0x2D;
    let body = if neg { s.drop_first() } else { s };
    match split_fraction(body) {
        None => None,
        Some((clock, frac)) => match clock_micros(clock) {
            None => None,
            Some(c) => Some(if neg { -(frac + c) } else { frac + c }),
        },
    }
}

/// The microseconds of a `Time` value's fields, as one sum.
pub open spec fn time_fields_micros(d: u32, h: u8, m: u8, s: u8, u: u32) -> int {
    u + s * 1_000_000 + m * 60 * 1_000_000 + h * 60 * 60 * 1_000_000 + d * 24 * 60 * 60 * 1_000_000
}

fn digit_upto_exec(b: u8, hi: u8) -> (r: bool)
    ensures
        r == digit_upto(b, hi),
{
    0x30 <= b && b <= hi
}

fn clock_micros_exec(c: &[u8]) -> (r: Option<i64>)
    ensures
        match clock_micros(c@) {
            None => r is None,
            Some(x) => r matches Some(y) && y == x,
        },
{
    if c.len() == 9 && digit_upto_exec(c[0], 0x38) && digit_upto_exec(c[1], 0x39) && digit_upto_exec(c[2], 0x39)
        && c[3] == 0x3A && digit_upto_exec(c[4], 0x35) && digit_upto_exec(c[5], 0x39) && c[6] == 0x3A
        && digit_upto_exec(c[7], 0x35) && digit_upto_exec(c[8], 0x39) {
        let (h3, h2, h1, m2, m1, s2, s1) = (c[0], c[1], c[2], c[4], c[5], c[7], c[8]);
        assert(forall|b: i64| 0x30 <= b <= 0x39 ==> #[trigger] (b & 0x0F) == b - 0x30) by (bit_vector);
        let s = (s2 as i64 & 0x0F) * 10 + (s1 as i64 & 0x0F);
        let m = (m2 as i64 & 0x0F) * 10 + (m1 as i64 & 0x0F);
        let h = (h3 as i64 & 0x0F) * 100 + (h2 as i64 & 0x0F) * 10 + (h1 as i64 & 0x0F);
        Some(s * 1_000_000 + m * 60 * 1_000_000 + h * 60 * 60 * 1_000_000)
    } else if c.len() == 8 && digit_upto_exec(c[0], 0x39) && digit_upto_exec(c[1], 0x39) && c[2] == 0x3A
        && digit_upto_exec(c[3], 0x35) && digit_upto_exec(c[4], 0x39) && c[5] == 0x3A
        && digit_upto_exec(c[6], 0x35) && digit_upto_exec(c[7], 0x39) {
        let (h2, h1, m2, m1, s2, s1) = (c[0], c[1], c[3], c[4], c[6], c[7]);
        assert(forall|b: u8| 0x30 <= b <= 0x39 ==> #[trigger] (b | 0x0F) == 63) by (bit_vector);
        assert(forall|b: u8| 0x30 <= b <= 0x39 ==> #[trigger] ((b as i64) | 0x0F) == 63) by (bit_vector);
        let s = (s2 as i64 | 0x0F) * 10 + (s1 as i64 | 0x0F);
        let m = (m2 as i64 | 0x0F) * 10 + (m1 as i64 | 0x0F);
        let h = (h2 as i64 | 0x0F) * 10 + (h1 as i64 | 0x0F);
        Some(s * 1_000_000 + m * 60 * 1_000_000 + h * 60 * 60 * 1_000_000)
    } else {
        None
    }
}


fn find_dot_exec(s: &[u8]) -> (r: usize)
    ensures
        r <= s@.len(),
        match find_dot(s@) {
            None => r == s@.len(),
            Some(p) => r == p && p < s@.len(),
        },
{
    let mut p: usize = 0;
    while p < s.len() && s[p] != 0x2E
        invariant
            p <= s@.len(),
            forall|j: int| 0 <= j < p ==> s@[j] != 0x2E,
        decreases s@.len() - p,
    {
        p = p + 1;
    }
    proof {
        lemma_find_dot(s@, p as int);
    }
    p
}

/// Splits the fraction off the text of a time (`split_fraction`).
fn split_fraction_exec(body: &[u8]) -> (r: Option<(&[u8], i64)>)
    ensures
        match split_fraction(body@) {
            None => r is None,
            Some((c, f)) => r matches Some((cl, fr)) && cl@ == c && fr == f && -1_000_000 < f
                < 1_000_000,
        },
{
    let p = find_dot_exec(body);
    if p == body.len() {
        return Some((body, 0));
    }
    let f = slice_subrange(body, p + 1, body.len());
    assert(f@ =~= body@.skip(p + 1));
    let q = find_dot_exec(f);
    if q < f.len() {
        return None;
    }
    let clock = slice_subrange(body, 0, p);
    assert(clock@ =~= body@.take(p as int));
    let parsed = if f.len() <= 6 {
        parse_int_bytes(f, i64::MIN as i128, i64::MAX as i128)
    } else {
        None
    };
    match parsed {
        Some(x) => {
            let k = 6 - f.len();
            proof {
                reveal_with_fuel(pow10, 7);
            }
            let scale: i64 = if k == 0 {
                1
            } else if k == 1 {
                10
            } else if k == 2 {
                100
            } else if k == 3 {
                1000
            } else if k == 4 {
                10000
            } else if k == 5 {
                100000
            } else {
                1000000
            };
            assert(scale == pow10(k as nat));
            proof {
                lemma_parse_int_bound(f@, i64::MIN as int, i64::MAX as int);
                lemma_pow10_add(f@.len(), k as nat);
                lemma_pow10_add(k as nat, 0);
                assert(-pow10(6) < x * scale < pow10(6)) by (nonlinear_arith)
                    requires
                        -pow10(f@.len()) < x < pow10(f@.len()),
                        scale == pow10(k as nat),
                        scale > 0,
                        pow10(f@.len()) * pow10(k as nat) == pow10(6),
                ;
            }
            Some((clock, (x as i64) * scale))
        },
        None => {
            if f.len() == 0 {
                Some((clock, 0))
            } else {
                None
            }
        },
    }
}

/// The microseconds of the time text `s` (`time_text_micros`).
pub fn time_text_micros_exec(s: &[u8]) -> (r: Option<i64>)
    ensures
        match time_text_micros(s@) {
            None => r is None,
            Some(x) => r matches Some(y) && y == x,
        },
{
    let neg = s.len() > 0 && s[0] == 0x2D;
    let body: &[u8] = if neg { slice_subrange(s, 1, s.len()) } else { s };
    assert(neg ==> body@ =~= s@.drop_first());
    match split_fraction_exec(body) {
        None => None,
        Some((clock, frac)) => match clock_micros_exec(clock) {
            None => None,
            Some(c) => {
                let total = frac + c;
                Some(if neg { -total } else { total })
            },
        },
    }
}


/// The nanoseconds of a time value's fields, negated for a negative time.
pub open spec fn time_nanos(neg: bool, d: u32, h: u8, m: u8, s: u8, u: u32) -> int {
    (if neg {
        -time_fields_micros(d, h, m, s, u)
    } else {
        time_fields_micros(d, h, m, s, u)
    }) * 1000
}

/// The span of a time value's fields.
fn duration_of_time(neg: bool, d: u32, h: u8, m: u8, s: u8, u: u32) -> (r: Duration)
    requires
        time_fields_micros(d, h, m, s, u) <= i64::MAX,
    ensures
        r.nanos_total() == time_nanos(neg, d, h, m, s, u),
{
    let microseconds = u as i64 + (s as i64 * 1_000_000) + (m as i64 * 60 * 1_000_000) + (h as i64
        * 60 * 60 * 1_000_000) + (d as i64 * 24 * 60 * 60 * 1_000_000);
    if neg {
        Duration::microseconds(0 - microseconds)
    } else {
        Duration::microseconds(microseconds)
    }
}

impl FromValue for Duration {
    /// The fields of a time must sum to a number of microseconds that fits
    /// in an `i64`.
    open spec fn from_value_requires(v: ValueModel) -> bool {
        match v {
            ValueModel::Time(_, d, h, m, s, u) => time_fields_micros(d, h, m, s, u) <= i64::MAX,
            _ => true,
        }
    }

    /// A time's fields summed to microseconds, negated for a negative time;
    /// bytes read as time text (`time_text_micros`); nothing else converts.
    open spec fn from_value_spec(v: ValueModel) -> Option<int> {
        match v {
            ValueModel::Time(neg, d, h, m, s, u) => Some(time_nanos(neg, d, h, m, s, u)),
            ValueModel::Bytes(b) => match time_text_micros(b) {
                Some(us) => Some(us * 1000),
                None => None,
            },
            _ => None,
        }
    }

    fn from_value(v: &Value) -> (r: Duration) {
        Self::from_value_opt(v).unwrap()
    }

    fn from_value_opt(v: &Value) -> (r: Option<Duration>) {
        match v {
            Value::Time(neg, d, h, m, s, u) => Some(duration_of_time(*neg, *d, *h, *m, *s, *u)),
            Value::Bytes(bts) => match time_text_micros_exec(bts.as_slice()) {
                Some(us) => Some(Duration::microseconds(us)),
                None => None,
            },
            _ => None,
        }
    }
}


/// A span written as a time value by `to_value` converts back to the same
/// span, when it is whole microseconds, its days fit in 32 bits and its
/// microseconds in an `i64`.
#[verifier::spinoff_prover]
#[verifier::rlimit(40)]
pub proof fn lemma_duration_time_roundtrip(t: int)
    requires
        t % 1000 == 0,
        (if t < 0 { -t } else { t }) / 1_000_000_000 / 86400 <= u32::MAX,
        (if t < 0 { -t } else { t }) / 1000 <= i64::MAX,
    ensures
        <Duration as FromValue>::from_value_requires(duration_time(t)),
        <Duration as FromValue>::from_value_spec(duration_time(t)) == Some(t),
{
    let a: int = if t < 0 { -t } else { t };
    let secs = a / 1_000_000_000;
    let sub = a % 1_000_000_000;
    let d = secs / 86400;
    let h = (secs % 86400) / 3600;
    let m = (secs % 3600) / 60;
    let s = secs % 60;
    let u = sub / 1000;
    assert(u + s * 1_000_000 + m * 60 * 1_000_000 + h * 60 * 60 * 1_000_000 + d * 24 * 60 * 60
        * 1_000_000 == a / 1000) by (nonlinear_arith)
        requires
            a >= 0,
            a % 1000 == 0,
            secs == a / 1_000_000_000,
            sub == a % 1_000_000_000,
            d == secs / 86400,
            h == (secs % 86400) / 3600,
            m == (secs % 3600) / 60,
            s == secs % 60,
            u == sub / 1000,
    ;
    assert(h < 24 && m < 60 && s < 60 && u < 1_000_000) by (nonlinear_arith)
        requires
            a >= 0,
            secs == a / 1_000_000_000,
            sub == a % 1_000_000_000,
            h == (secs % 86400) / 3600,
            m == (secs % 3600) / 60,
            s == secs % 60,
            u == sub / 1000,
    ;
    assert((a / 1000) * 1000 == a) by (nonlinear_arith)
        requires
            a % 1000 == 0,
    ;
    assert(t % 1000 == 0 ==> a % 1000 == 0) by (nonlinear_arith)
        requires
            a == (if t < 0 { -t } else { t }),
    ;
    assert((if t < 0 { -(a / 1000) } else { a / 1000 }) * 1000 == t);
}


/// A time value with hours, minutes, seconds and microseconds in range
/// converts to a span that `to_value` writes back as the same time value,
/// unless it is a negative zero, which is the zero span.
pub proof fn lemma_time_duration_roundtrip(neg: bool, d: u32, h: u8, m: u8, s: u8, u: u32)
    requires
        h < 24,
        m < 60,
        s < 60,
        u < 1_000_000,
        time_fields_micros(d, h, m, s, u) <= i64::MAX,
        neg ==> (d > 0 || h > 0 || m > 0 || s > 0 || u > 0),
    ensures
        duration_time(time_nanos(neg, d, h, m, s, u)) == ValueModel::Time(neg, d, h, m, s, u),
{
    let us = time_fields_micros(d, h, m, s, u);
    let t = time_nanos(neg, d, h, m, s, u);
    let a: int = us * 1000;
    let secs: int = d * 86400 + h * 3600 + m * 60 + s;
    assert(a == secs * 1_000_000_000 + u * 1000);
    assert(a / 1_000_000_000 == secs && a % 1_000_000_000 == u * 1000) by (nonlinear_arith)
        requires
            a == secs * 1_000_000_000 + u * 1000,
            0 <= u < 1_000_000,
            secs >= 0,
    ;
    assert(secs / 86400 == d && (secs % 86400) / 3600 == h && (secs % 3600) / 60 == m && secs % 60
        == s) by (nonlinear_arith)
        requires
            secs == d * 86400 + h * 3600 + m * 60 + s,
            0 <= h < 24,
            0 <= m < 60,
            0 <= s < 60,
            d >= 0,
    ;
    assert((u * 1000) / 1000 == u) by (nonlinear_arith);
    assert(neg ==> secs >= 1 || u >= 1);
}

} // verus!
