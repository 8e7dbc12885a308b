use vstd::prelude::*;

use vstd::slice::slice_to_vec;
use vstd::utf8::{decode_utf8, encode_utf8, valid_utf8};

use crate::numparse::{all_digits, digits_value, is_digit, parse_int, parse_int_bytes};
use crate::text::{dec, digit, signed_dec};
use crate::text::str_from_utf8;
use crate::value::{sql_text, Value, ValueModel};

verus! {

impl DeepView for Value {
    type V = ValueModel;

    open spec fn deep_view(&self) -> ValueModel {
        self@
    }
}

/// Conversion of a Rust value into a MySQL value.
pub trait ToValue {
    /// The value `to_value` gives.
    spec fn to_value_spec(&self) -> ValueModel;

    fn to_value(&self) -> (r: Value)
        ensures
            r@ == self.to_value_spec(),
    ;
}

/// Conversion of a MySQL value into a Rust value.
pub trait FromValue: Sized + DeepView {
    /// The inputs the conversion is defined on (where it does not panic).
    spec fn from_value_requires(v: ValueModel) -> bool;

    /// The converted value, `None` when `v` does not convert.
    spec fn from_value_spec(v: ValueModel) -> Option<<Self as DeepView>::V>;

    /// The converted value of `v`, which must convert.
    fn from_value(v: &Value) -> (r: Self)
        requires
            Self::from_value_requires(v@),
            Self::from_value_spec(v@) is Some,
        ensures
            Self::from_value_spec(v@) == Some(r.deep_view()),
    ;

    /// The converted value of `v`, or `None` when it does not convert.
    fn from_value_opt(v: &Value) -> (r: Option<Self>)
        requires
            Self::from_value_requires(v@),
        ensures
            match r {
                Some(x) => Self::from_value_spec(v@) == Some(x.deep_view()),
                None => Self::from_value_spec(v@) is None,
            },
    ;
}

/// Will fail if could not retrieve `T` from `Value`.
pub fn from_value<T: FromValue>(v: &Value) -> (r: T)
    requires
        T::from_value_requires(v@),
        T::from_value_spec(v@) is Some,
    ensures
        T::from_value_spec(v@) == Some(r.deep_view()),
{
    T::from_value(v)
}

/// Will return `None` if could not retrieve `T` from `Value`.
pub fn from_value_opt<T: FromValue>(v: &Value) -> (r: Option<T>)
    requires
        T::from_value_requires(v@),
    ensures
        match r {
            Some(x) => T::from_value_spec(v@) == Some(x.deep_view()),
            None => T::from_value_spec(v@) is None,
        },
{
    T::from_value_opt(v)
}

/// The integer that `v` converts to for an integer type of range
/// `[lo, hi]`: an `Int` or a `UInt` within the range, or bytes that
/// `str::parse` reads as an integer in the range.
pub open spec fn int_from_value(v: ValueModel, lo: int, hi: int) -> Option<int> {
    match v {
        ValueModel::Int(x) => if lo <= x && x <= hi {
            Some(x as int)
        } else {
            None
        },
        ValueModel::UInt(x) => if x <= hi {
            Some(x as int)
        } else {
            None
        },
        ValueModel::Bytes(b) => parse_int(b, lo, hi),
        _ => None,
    }
}

fn int_from_value_exec(v: &Value, lo: i128, hi: i128) -> (r: Option<i128>)
    requires
        lo >= -0x1_0000_0000_0000_0000,
        hi <= 0x1_0000_0000_0000_0000,
    ensures
        match int_from_value(v@, lo as int, hi as int) {
            None => r is None,
            Some(x) => r == Some(x as i128),
        },
{
    match v {
        Value::Int(x) => if lo <= *x as i128 && *x as i128 <= hi {
            Some(*x as i128)
        } else {
            None
        },
        Value::UInt(x) => if *x as i128 <= hi {
            Some(*x as i128)
        } else {
            None
        },
        Value::Bytes(b) => parse_int_bytes(b.as_slice(), lo, hi),
        _ => None,
    }
}

impl FromValue for i8 {
    open spec fn from_value_requires(v: ValueModel) -> bool {
        true
    }

    open spec fn from_value_spec(v: ValueModel) -> Option<i8> {
        match int_from_value(v, i8::MIN as int, i8::MAX as int) {
            Some(x) => Some(x as i8),
            None => None,
        }
    }

    fn from_value(v: &Value) -> (r: i8) {
        Self::from_value_opt(v).unwrap()
    }

    fn from_value_opt(v: &Value) -> (r: Option<i8>) {
        match int_from_value_exec(v, i8::MIN as i128, i8::MAX as i128) {
            Some(x) => Some(x as i8),
            None => None,
        }
    }
}

impl FromValue for u8 {
    open spec fn from_value_requires(v: ValueModel) -> bool {
        true
    }

    open spec fn from_value_spec(v: ValueModel) -> Option<u8> {
        match int_from_value(v, u8::MIN as int, u8::MAX as int) {
            Some(x) => Some(x as u8),
            None => None,
        }
    }

    fn from_value(v: &Value) -> (r: u8) {
        Self::from_value_opt(v).unwrap()
    }

    fn from_value_opt(v: &Value) -> (r: Option<u8>) {
        match int_from_value_exec(v, u8::MIN as i128, u8::MAX as i128) {
            Some(x) => Some(x as u8),
            None => None,
        }
    }
}

impl FromValue for i16 {
    open spec fn from_value_requires(v: ValueModel) -> bool {
        true
    }

    open spec fn from_value_spec(v: ValueModel) -> Option<i16> {
        match int_from_value(v, i16::MIN as int, i16::MAX as int) {
            Some(x) => Some(x as i16),
            None => None,
        }
    }

    fn from_value(v: &Value) -> (r: i16) {
        Self::from_value_opt(v).unwrap()
    }

    fn from_value_opt(v: &Value) -> (r: Option<i16>) {
        match int_from_value_exec(v, i16::MIN as i128, i16::MAX as i128) {
            Some(x) => Some(x as i16),
            None => None,
        }
    }
}

impl FromValue for u16 {
    open spec fn from_value_requires(v: ValueModel) -> bool {
        true
    }

    open spec fn from_value_spec(v: ValueModel) -> Option<u16> {
        match int_from_value(v, u16::MIN as int, u16::MAX as int) {
            Some(x) => Some(x as u16),
            None => None,
        }
    }

    fn from_value(v: &Value) -> (r: u16) {
        Self::from_value_opt(v).unwrap()
    }

    fn from_value_opt(v: &Value) -> (r: Option<u16>) {
        match int_from_value_exec(v, u16::MIN as i128, u16::MAX as i128) {
            Some(x) => Some(x as u16),
            None => None,
        }
    }
}

impl FromValue for i32 {
    open spec fn from_value_requires(v: ValueModel) -> bool {
        true
    }

    open spec fn from_value_spec(v: ValueModel) -> Option<i32> {
        match int_from_value(v, i32::MIN as int, i32::MAX as int) {
            Some(x) => Some(x as i32),
            None => None,
        }
    }

    fn from_value(v: &Value) -> (r: i32) {
        Self::from_value_opt(v).unwrap()
    }

    fn from_value_opt(v: &Value) -> (r: Option<i32>) {
        match int_from_value_exec(v, i32::MIN as i128, i32::MAX as i128) {
            Some(x) => Some(x as i32),
            None => None,
        }
    }
}

impl FromValue for u32 {
    open spec fn from_value_requires(v: ValueModel) -> bool {
        true
    }

    open spec fn from_value_spec(v: ValueModel) -> Option<u32> {
        match int_from_value(v, u32::MIN as int, u32::MAX as int) {
            Some(x) => Some(x as u32),
            None => None,
        }
    }

    fn from_value(v: &Value) -> (r: u32) {
        Self::from_value_opt(v).unwrap()
    }

    fn from_value_opt(v: &Value) -> (r: Option<u32>) {
        match int_from_value_exec(v, u32::MIN as i128, u32::MAX as i128) {
            Some(x) => Some(x as u32),
            None => None,
        }
    }
}

impl FromValue for isize {
    open spec fn from_value_requires(v: ValueModel) -> bool {
        true
    }

    open spec fn from_value_spec(v: ValueModel) -> Option<isize> {
        match int_from_value(v, isize::MIN as int, isize::MAX as int) {
            Some(x) => Some(x as isize),
            None => None,
        }
    }

    fn from_value(v: &Value) -> (r: isize) {
        Self::from_value_opt(v).unwrap()
    }

    fn from_value_opt(v: &Value) -> (r: Option<isize>) {
        match int_from_value_exec(v, isize::MIN as i128, isize::MAX as i128) {
            Some(x) => Some(x as isize),
            None => None,
        }
    }
}

impl FromValue for usize {
    open spec fn from_value_requires(v: ValueModel) -> bool {
        true
    }

    open spec fn from_value_spec(v: ValueModel) -> Option<usize> {
        match int_from_value(v, usize::MIN as int, usize::MAX as int) {
            Some(x) => Some(x as usize),
            None => None,
        }
    }

    fn from_value(v: &Value) -> (r: usize) {
        Self::from_value_opt(v).unwrap()
    }

    fn from_value_opt(v: &Value) -> (r: Option<usize>) {
        match int_from_value_exec(v, usize::MIN as i128, usize::MAX as i128) {
            Some(x) => Some(x as usize),
            None => None,
        }
    }
}

impl FromValue for i64 {
    open spec fn from_value_requires(v: ValueModel) -> bool {
        true
    }

    open spec fn from_value_spec(v: ValueModel) -> Option<i64> {
        match int_from_value(v, i64::MIN as int, i64::MAX as int) {
            Some(x) => Some(x as i64),
            None => None,
        }
    }

    fn from_value(v: &Value) -> (r: i64) {
        Self::from_value_opt(v).unwrap()
    }

    fn from_value_opt(v: &Value) -> (r: Option<i64>) {
        match int_from_value_exec(v, i64::MIN as i128, i64::MAX as i128) {
            Some(x) => Some(x as i64),
            None => None,
        }
    }
}

impl ToValue for i8 {
    open spec fn to_value_spec(&self) -> ValueModel {
        ValueModel::Int(*self as i64)
    }

    fn to_value(&self) -> (r: Value) {
        Value::Int(*self as i64)
    }
}

impl ToValue for u8 {
    open spec fn to_value_spec(&self) -> ValueModel {
        ValueModel::Int(*self as i64)
    }

    fn to_value(&self) -> (r: Value) {
        Value::Int(*self as i64)
    }
}

impl ToValue for i16 {
    open spec fn to_value_spec(&self) -> ValueModel {
        ValueModel::Int(*self as i64)
    }

    fn to_value(&self) -> (r: Value) {
        Value::Int(*self as i64)
    }
}

impl ToValue for u16 {
    open spec fn to_value_spec(&self) -> ValueModel {
        ValueModel::Int(*self as i64)
    }

    fn to_value(&self) -> (r: Value) {
        Value::Int(*self as i64)
    }
}

impl ToValue for i32 {
    open spec fn to_value_spec(&self) -> ValueModel {
        ValueModel::Int(*self as i64)
    }

    fn to_value(&self) -> (r: Value) {
        Value::Int(*self as i64)
    }
}

impl ToValue for u32 {
    open spec fn to_value_spec(&self) -> ValueModel {
        ValueModel::Int(*self as i64)
    }

    fn to_value(&self) -> (r: Value) {
        Value::Int(*self as i64)
    }
}

impl ToValue for isize {
    open spec fn to_value_spec(&self) -> ValueModel {
        ValueModel::Int(*self as i64)
    }

    fn to_value(&self) -> (r: Value) {
        Value::Int(*self as i64)
    }
}

impl ToValue for i64 {
    open spec fn to_value_spec(&self) -> ValueModel {
        ValueModel::Int(*self as i64)
    }

    fn to_value(&self) -> (r: Value) {
        Value::Int(*self as i64)
    }
}

impl ToValue for u64 {
    open spec fn to_value_spec(&self) -> ValueModel {
        ValueModel::UInt(*self)
    }

    fn to_value(&self) -> (r: Value) {
        Value::UInt(*self)
    }
}

impl ToValue for usize {
    open spec fn to_value_spec(&self) -> ValueModel {
        if *self as u64 <= i64::MAX as u64 {
            ValueModel::Int(*self as i64)
        } else {
            ValueModel::UInt(*self as u64)
        }
    }

    fn to_value(&self) -> (r: Value) {
        if *self as u64 <= i64::MAX as u64 {
            Value::Int(*self as i64)
        } else {
            Value::UInt(*self as u64)
        }
    }
}

impl ToValue for bool {
    open spec fn to_value_spec(&self) -> ValueModel {
        ValueModel::Int(if *self { 1 } else { 0 })
    }

    fn to_value(&self) -> (r: Value) {
        if *self {
            Value::Int(1)
        } else {
            Value::Int(0)
        }
    }
}

impl<'a> ToValue for &'a [u8] {
    open spec fn to_value_spec(&self) -> ValueModel {
        ValueModel::Bytes(self@)
    }

    fn to_value(&self) -> (r: Value) {
        Value::Bytes(slice_to_vec(*self))
    }
}

impl ToValue for Vec<u8> {
    open spec fn to_value_spec(&self) -> ValueModel {
        ValueModel::Bytes(self@)
    }

    fn to_value(&self) -> (r: Value) {
        Value::Bytes(self.clone())
    }
}

impl<'a> ToValue for &'a str {
    open spec fn to_value_spec(&self) -> ValueModel {
        ValueModel::Bytes(encode_utf8(self@))
    }

    fn to_value(&self) -> (r: Value) {
        Value::Bytes(slice_to_vec(self.as_bytes()))
    }
}

impl ToValue for String {
    open spec fn to_value_spec(&self) -> ValueModel {
        ValueModel::Bytes(encode_utf8(self@))
    }

    fn to_value(&self) -> (r: Value) {
        Value::Bytes(slice_to_vec(self.as_str().as_bytes()))
    }
}

impl ToValue for Value {
    open spec fn to_value_spec(&self) -> ValueModel {
        self@
    }

    fn to_value(&self) -> (r: Value) {
        self.copy()
    }
}

impl<T: ToValue> ToValue for Option<T> {
    open spec fn to_value_spec(&self) -> ValueModel {
        match self {
            None => ValueModel::Null,
            Some(x) => x.to_value_spec(),
        }
    }

    fn to_value(&self) -> (r: Value) {
        match self {
            None => Value::NULL,
            Some(x) => x.to_value(),
        }
    }
}

impl FromValue for Value {
    open spec fn from_value_requires(v: ValueModel) -> bool {
        true
    }

    open spec fn from_value_spec(v: ValueModel) -> Option<ValueModel> {
        Some(v)
    }

    fn from_value(v: &Value) -> (r: Value) {
        v.copy()
    }

    fn from_value_opt(v: &Value) -> (r: Option<Value>) {
        Some(v.copy())
    }
}

impl<T: FromValue> FromValue for Option<T> {
    open spec fn from_value_requires(v: ValueModel) -> bool {
        v is Null || T::from_value_requires(v)
    }

    open spec fn from_value_spec(v: ValueModel) -> Option<Option<<T as DeepView>::V>> {
        if v is Null {
            Some(None)
        } else {
            match T::from_value_spec(v) {
                Some(x) => Some(Some(x)),
                None => None,
            }
        }
    }

    fn from_value(v: &Value) -> (r: Option<T>) {
        match v {
            Value::NULL => None,
            _ => Some(T::from_value(v)),
        }
    }

    fn from_value_opt(v: &Value) -> (r: Option<Option<T>>) {
        match v {
            Value::NULL => Some(None),
            _ => match T::from_value_opt(v) {
                None => None,
                x => Some(x),
            },
        }
    }
}

impl FromValue for u64 {
    open spec fn from_value_requires(v: ValueModel) -> bool {
        true
    }

    open spec fn from_value_spec(v: ValueModel) -> Option<u64> {
        match int_from_value(v, u64::MIN as int, u64::MAX as int) {
            Some(x) => Some(x as u64),
            None => None,
        }
    }

    fn from_value(v: &Value) -> (r: u64) {
        Self::from_value_opt(v).unwrap()
    }

    fn from_value_opt(v: &Value) -> (r: Option<u64>) {
        match int_from_value_exec(v, u64::MIN as i128, u64::MAX as i128) {
            Some(x) => Some(x as u64),
            None => None,
        }
    }
}

impl FromValue for bool {
    open spec fn from_value_requires(v: ValueModel) -> bool {
        true
    }

    open spec fn from_value_spec(v: ValueModel) -> Option<bool> {
        match v {
            ValueModel::Int(x) => if x == 0 {
                Some(false)
            } else if x == 1 {
                Some(true)
            } else {
                None
            },
            ValueModel::Bytes(b) => if b =~= seq![0x30u8] {
                Some(false)
            } else if b =~= seq![0x31u8] {
                Some(true)
            } else {
                None
            },
            _ => None,
        }
    }

    fn from_value(v: &Value) -> (r: bool) {
        Self::from_value_opt(v).unwrap()
    }

    fn from_value_opt(v: &Value) -> (r: Option<bool>) {
        match v {
            Value::Int(x) => if *x == 0 {
                Some(false)
            } else if *x == 1 {
                Some(true)
            } else {
                None
            },
            Value::Bytes(bts) => if bts.len() == 1 && bts[0] == 0x30 {
                assert(bts@ =~= seq![0x30u8]);
                Some(false)
            } else if bts.len() == 1 && bts[0] == 0x31 {
                assert(bts@ =~= seq![0x31u8]);
                Some(true)
            } else {
                None
            },
            _ => None,
        }
    }
}

impl FromValue for Vec<u8> {
    open spec fn from_value_requires(v: ValueModel) -> bool {
        true
    }

    open spec fn from_value_spec(v: ValueModel) -> Option<Seq<u8>> {
        match v {
            ValueModel::Bytes(b) => Some(b),
            _ => None,
        }
    }

    fn from_value(v: &Value) -> (r: Vec<u8>) {
        Self::from_value_opt(v).unwrap()
    }

    fn from_value_opt(v: &Value) -> (r: Option<Vec<u8>>) {
        match v {
            Value::Bytes(bts) => {
                let out = slice_to_vec(bts.as_slice());
                assert(out.deep_view() =~= bts@);
                Some(out)
            },
            _ => None,
        }
    }
}

impl FromValue for String {
    open spec fn from_value_requires(v: ValueModel) -> bool {
        true
    }

    open spec fn from_value_spec(v: ValueModel) -> Option<Seq<char>> {
        match v {
            ValueModel::Bytes(b) => if valid_utf8(b) {
                Some(decode_utf8(b))
            } else {
                None
            },
            _ => None,
        }
    }

    fn from_value(v: &Value) -> (r: String) {
        Self::from_value_opt(v).unwrap()
    }

    fn from_value_opt(v: &Value) -> (r: Option<String>) {
        match v {
            Value::Bytes(bts) => match str_from_utf8(bts.as_slice()) {
                Some(s) => Some(s.to_owned()),
                None => None,
            },
            _ => None,
        }
    }
}


/// An integer value (`Int` or `UInt`) converts to an integer type exactly
/// when its number lies in the type's range, and then to that number: an
/// `Int` holding a non-negative number (such as an unsigned column read as
/// `Int`) converts to `u64`, every `UInt` converts to `u64`, and every
/// `Int` converts to `i64`.
pub proof fn lemma_int_values_convert(x: i64, y: u64)
    ensures
        <u64 as FromValue>::from_value_spec(ValueModel::Int(x)) == if x >= 0 {
            Some(x as u64)
        } else {
            None
        },
        <u64 as FromValue>::from_value_spec(ValueModel::UInt(y)) == Some(y),
        <i64 as FromValue>::from_value_spec(ValueModel::Int(x)) == Some(x),
        <i64 as FromValue>::from_value_spec(ValueModel::UInt(y)) == if y <= i64::MAX {
            Some(y as i64)
        } else {
            None
        },
        <usize as FromValue>::from_value_spec(ValueModel::Int(x)) == if 0 <= x <= usize::MAX {
            Some(x as usize)
        } else {
            None
        },
        <usize as FromValue>::from_value_spec(ValueModel::UInt(y)) == if y <= usize::MAX {
            Some(y as usize)
        } else {
            None
        },
        <isize as FromValue>::from_value_spec(ValueModel::Int(x)) == if isize::MIN <= x <= isize::MAX {
            Some(x as isize)
        } else {
            None
        },
        <u32 as FromValue>::from_value_spec(ValueModel::Int(x)) == if 0 <= x <= u32::MAX {
            Some(x as u32)
        } else {
            None
        },
        <i32 as FromValue>::from_value_spec(ValueModel::Int(x)) == if i32::MIN <= x <= i32::MAX {
            Some(x as i32)
        } else {
            None
        },
        <u16 as FromValue>::from_value_spec(ValueModel::Int(x)) == if 0 <= x <= u16::MAX {
            Some(x as u16)
        } else {
            None
        },
        <i16 as FromValue>::from_value_spec(ValueModel::Int(x)) == if i16::MIN <= x <= i16::MAX {
            Some(x as i16)
        } else {
            None
        },
        <u8 as FromValue>::from_value_spec(ValueModel::Int(x)) == if 0 <= x <= u8::MAX {
            Some(x as u8)
        } else {
            None
        },
        <i8 as FromValue>::from_value_spec(ValueModel::Int(x)) == if i8::MIN <= x <= i8::MAX {
            Some(x as i8)
        } else {
            None
        },
{
}

/// An integer converted to a value converts back to itself.
pub proof fn lemma_int_value_roundtrip(a: i8, b: u8, c: i16, d: u16, e: i32, f: u32, g: isize, h: i64, k: u64)
    ensures
        <i8 as FromValue>::from_value_spec(a.to_value_spec()) == Some(a),
        <u8 as FromValue>::from_value_spec(b.to_value_spec()) == Some(b),
        <i16 as FromValue>::from_value_spec(c.to_value_spec()) == Some(c),
        <u16 as FromValue>::from_value_spec(d.to_value_spec()) == Some(d),
        <i32 as FromValue>::from_value_spec(e.to_value_spec()) == Some(e),
        <u32 as FromValue>::from_value_spec(f.to_value_spec()) == Some(f),
        <isize as FromValue>::from_value_spec(g.to_value_spec()) == Some(g),
        <i64 as FromValue>::from_value_spec(h.to_value_spec()) == Some(h),
        <u64 as FromValue>::from_value_spec(k.to_value_spec()) == Some(k),
{
}

/// A `usize` converted to a value converts back to itself.
pub proof fn lemma_usize_value_roundtrip(x: usize)
    ensures
        <usize as FromValue>::from_value_spec(x.to_value_spec()) == Some(x),
{
}

/// A boolean, bytes and a string converted to a value convert back to
/// themselves, and so does an absent value of any of them.
pub proof fn lemma_value_roundtrip(b: bool, v: Vec<u8>, s: String)
    ensures
        <bool as FromValue>::from_value_spec(b.to_value_spec()) == Some(b),
        <Vec<u8> as FromValue>::from_value_spec(v.to_value_spec()) == Some(v.deep_view()),
        <String as FromValue>::from_value_spec(s.to_value_spec()) == Some(s.deep_view()),
        <Option<String> as FromValue>::from_value_spec((None::<String>).to_value_spec()) == Some(None::<Seq<char>>),
{
    broadcast use vstd::utf8::encode_utf8_valid_utf8, vstd::utf8::encode_utf8_decode_utf8;

    assert(v.deep_view() =~= v@);
}


/// The bytes of the decimal text of `n`.
spec fn dec_bytes(n: nat) -> Seq<u8>
    decreases n,
{
    if n < 10 {
        seq![(0x30 + n) as u8]
    } else {
        dec_bytes(n / 10).push((0x30 + n % 10) as u8)
    }
}

proof fn lemma_dec_bytes(n: nat)
    ensures
        encode_utf8(dec(n)) == dec_bytes(n),
        dec_bytes(n).len() > 0,
        all_digits(dec_bytes(n)),
        digits_value(dec_bytes(n)) == n,
    decreases n,
{
    let c = dec(n);
    let b = dec_bytes(n);
    if n >= 10 {
        lemma_dec_bytes(n / 10);
        assert(b.drop_last() =~= dec_bytes(n / 10));
        assert(c.drop_last() =~= dec(n / 10));
        assert(b.last() == (0x30 + n % 10) as u8);
        assert((b.last() - 0x30) as nat == n % 10);
        assert(digits_value(b) == digits_value(dec_bytes(n / 10)) * 10 + (b.last() - 0x30) as nat);
        assert((n / 10) * 10 + n % 10 == n);
    } else {
        assert(b.drop_last() =~= Seq::<u8>::empty());
        assert(digits_value(b) == digits_value(b.drop_last()) * 10 + (b.last() - 0x30) as nat);
    }
    assert(c.len() == b.len()) by {
        lemma_dec_len(n);
    }
    assert(forall|i: int| 0 <= i < c.len() ==> '0' <= #[trigger] c[i] <= '9' && c[i] as u8 == b[i]) by {
        lemma_dec_chars(n);
    }
    assert(vstd::utf8::is_ascii_chars(c));
    vstd::utf8::is_ascii_chars_encode_utf8(c);
    assert(encode_utf8(c) =~= b);
    assert forall|i: int| 0 <= i < b.len() implies is_digit(#[trigger] b[i]) by {
        lemma_dec_chars(n);
    }
}

proof fn lemma_dec_len(n: nat)
    ensures
        dec(n).len() == dec_bytes(n).len(),
    decreases n,
{
    if n >= 10 {
        lemma_dec_len(n / 10);
    }
}

proof fn lemma_dec_chars(n: nat)
    ensures
        dec(n).len() == dec_bytes(n).len(),
        forall|i: int|
            0 <= i < dec(n).len() ==> '0' <= #[trigger] dec(n)[i] <= '9' && dec(n)[i] as u8
                == dec_bytes(n)[i] && 0x30 <= dec_bytes(n)[i] <= 0x39,
    decreases n,
{
    lemma_dec_len(n);
    if n >= 10 {
        lemma_dec_chars(n / 10);
    }
    let d = n % 10;
    assert(digit(d as int) as u8 == (0x30 + d) as u8 && '0' <= digit(d as int) <= '9') by {
        assert(d < 10);
    }
}

/// The SQL text of an integer value, read back as bytes, converts to the
/// same integer.
pub proof fn lemma_int_text_roundtrip(x: i64, y: u64)
    ensures
        <i64 as FromValue>::from_value_spec(
            ValueModel::Bytes(encode_utf8(sql_text(ValueModel::Int(x))->0)),
        ) == Some(x),
        <u64 as FromValue>::from_value_spec(
            ValueModel::Bytes(encode_utf8(sql_text(ValueModel::UInt(y))->0)),
        ) == Some(y),
{
    lemma_dec_bytes(y as nat);
    assert(parse_int(dec_bytes(y as nat), 0, u64::MAX as int) == Some(y as int));
    if x < 0 {
        let m = (-x) as nat;
        lemma_dec_bytes(m);
        lemma_dec_chars(m);
        let c = seq!['-'] + dec(m);
        let b = seq![0x2Du8] + dec_bytes(m);
        assert(c == signed_dec(x as int));
        assert forall|i: int| 0 <= i < c.len() implies '\0' <= #[trigger] c[i] <= '\u{7f}' && c[i] as u8 == b[i] by {
            if i > 0 {
                assert(c[i] == dec(m)[i - 1]);
                assert(b[i] == dec_bytes(m)[i - 1]);
            }
        }
        vstd::utf8::is_ascii_chars_encode_utf8(c);
        assert(encode_utf8(c) =~= b);
        assert(b.drop_first() =~= dec_bytes(m));
    } else {
        lemma_dec_bytes(x as nat);
    }
}

} // verus!
