use vstd::prelude::*;

use crate::double::FloatBits;
use crate::float::{widen_f32, widen_f32_bits};
use crate::value::{Value, ValueModel};
use crate::wire::{
    le_bytes, lemma_le_roundtrip, push_slice, lemma_lenenc_bytes_roundtrip, lemma_pow256_values, lenenc_bytes, lenenc_int, pow256, push_le, push_lenenc_bytes, read_lenenc_bytes,
    read_lenenc_bytes_at, le_value, read_le,
};

verus! {

/// The binary-protocol encoding of a value (the one `Value::to_bin` writes):
/// nothing for NULL; a length-encoded string for bytes; eight little-endian
/// bytes for integers and doubles; a length byte (0, 4, 7 or 11 for dates,
/// 0, 8 or 12 for times) followed by the fields that are not all zero.
pub open spec fn bin_encoding(v: ValueModel) -> Seq<u8> {
    match v {
        ValueModel::Null => seq![],
        ValueModel::Bytes(b) => lenenc_bytes(b),
        ValueModel::Int(x) => le_bytes((x as u64) as nat, 8),
        ValueModel::UInt(x) => le_bytes(x as nat, 8),
        ValueModel::Float(x) => le_bytes(x as nat, 8),
        ValueModel::Date(y, m, d, h, i, s, u) => if y == 0 && m == 0 && d == 0 && h == 0 && i == 0
            && s == 0 && u == 0 {
            seq![0u8]
        } else if h == 0 && i == 0 && s == 0 && u == 0 {
            seq![4u8] + le_bytes(y as nat, 2) + seq![m, d]
        } else if u == 0 {
            seq![7u8] + le_bytes(y as nat, 2) + seq![m, d, h, i, s]
        } else {
            seq![11u8] + le_bytes(y as nat, 2) + seq![m, d, h, i, s] + le_bytes(u as nat, 4)
        },
        ValueModel::Time(neg, d, h, i, s, u) => if d == 0 && h == 0 && i == 0 && s == 0 && u == 0 {
            seq![0u8]
        } else if u == 0 {
            seq![8u8, if neg { 1u8 } else { 0u8 }] + le_bytes(d as nat, 4) + seq![h, i, s]
        } else {
            seq![12u8, if neg { 1u8 } else { 0u8 }] + le_bytes(d as nat, 4) + seq![h, i, s]
                + le_bytes(u as nat, 4)
        },
    }
}

impl Value {
    /// The value's binary-protocol encoding (`bin_encoding`).
    pub fn to_bin(&self) -> (r: Vec<u8>)
        ensures
            r@ == bin_encoding(self@),
    {
        let mut w: Vec<u8> = Vec::new();
        match self {
            Value::NULL => {},
            Value::Bytes(x) => {
                push_lenenc_bytes(&mut w, x.as_slice());
            },
            Value::Int(x) => {
                push_le(&mut w, *x as u64, 8);
            },
            Value::UInt(x) => {
                push_le(&mut w, *x, 8);
            },
            Value::Float(x) => {
                push_le(&mut w, x.0, 8);
            },
            Value::Date(y, m, d, h, i, s, u) => {
                if *y == 0 && *m == 0 && *d == 0 && *h == 0 && *i == 0 && *s == 0 && *u == 0 {
                    w.push(0);
                } else if *h == 0 && *i == 0 && *s == 0 && *u == 0 {
                    w.push(4);
                    push_le(&mut w, *y as u64, 2);
                    w.push(*m);
                    w.push(*d);
                } else if *u == 0 {
                    w.push(7);
                    push_le(&mut w, *y as u64, 2);
                    w.push(*m);
                    w.push(*d);
                    w.push(*h);
                    w.push(*i);
                    w.push(*s);
                } else {
                    w.push(11);
                    push_le(&mut w, *y as u64, 2);
                    w.push(*m);
                    w.push(*d);
                    w.push(*h);
                    w.push(*i);
                    w.push(*s);
                    push_le(&mut w, *u as u64, 4);
                }
            },
            Value::Time(neg, d, h, i, s, u) => {
                if *d == 0 && *h == 0 && *i == 0 && *s == 0 && *u == 0 {
                    w.push(0);
                } else {
                    if *u == 0 {
                        w.push(8);
                    } else {
                        w.push(12);
                    }
                    w.push(if *neg { 1 } else { 0 });
                    push_le(&mut w, *d as u64, 4);
                    w.push(*h);
                    w.push(*i);
                    w.push(*s);
                    if *u != 0 {
                        push_le(&mut w, *u as u64, 4);
                    }
                }
            },
        }
        assert(w@ =~= bin_encoding(self@));
        w
    }
}

/// A text-protocol row: each column is either the NULL marker `0xFB` or a
/// length-encoded string; `None` when a column is cut short or malformed.
pub open spec fn text_row(s: Seq<u8>) -> Option<Seq<ValueModel>>
    decreases s.len(),
{
    if s.len() == 0 {
        Some(seq![])
    } else if s[0] == 0xFB {
        match text_row(s.drop_first()) {
            Some(rest) => Some(seq![ValueModel::Null] + rest),
            None => None,
        }
    } else {
        match read_lenenc_bytes(s) {
            None => None,
            Some((b, k)) => if 0 < k <= s.len() {
                match text_row(s.skip(k as int)) {
                    Some(rest) => Some(seq![ValueModel::Bytes(b)] + rest),
                    None => None,
                }
            } else {
                None
            },
        }
    }
}

/// The models of a sequence of values.
pub open spec fn models(vs: Seq<Value>) -> Seq<ValueModel> {
    vs.map_values(|v: Value| v@)
}

impl Value {
    /// Decodes a text-protocol row (`text_row`); `columns_count`, the
    /// expected number of columns, does not change the result.
    pub fn from_payload(pld: &[u8], columns_count: usize) -> (r: Option<Vec<Value>>)
        ensures
            match text_row(pld@) {
                None => r is None,
                Some(vals) => r matches Some(out) && models(out@) == vals,
            },
    {
        let mut output: Vec<Value> = Vec::new();
        let mut pos: usize = 0;
        assert(pld@.skip(0) =~= pld@);
        proof {
            match text_row(pld@) {
                Some(rest) => {
                    assert(models(output@) + rest =~= rest);
                },
                None => {},
            }
        }
        while pos < pld.len()
            invariant
                pos <= pld@.len(),
                text_row(pld@) == match text_row(pld@.skip(pos as int)) {
                    Some(rest) => Some(models(output@) + rest),
                    None => None,
                },
            decreases pld@.len() - pos,
        {
            let ghost t = pld@.skip(pos as int);
            let ghost before = output@;
            if pld[pos] == 0xFB {
                assert(t.drop_first() =~= pld@.skip(pos + 1));
                pos = pos + 1;
                output.push(Value::NULL);
                assert(models(output@) =~= models(before) + seq![ValueModel::Null]);
                proof {
                    match text_row(pld@.skip(pos as int)) {
                        Some(rest) => {
                            assert(models(output@) + rest =~= models(before) + (seq![
                                ValueModel::Null,
                            ] + rest));
                        },
                        None => {},
                    }
                }
            } else {
                match read_lenenc_bytes_at(pld, pos) {
                    None => {
                        return None;
                    },
                    Some((b, p)) => {
                        let ghost k = p - pos;
                        assert(t.skip(k) =~= pld@.skip(p as int));
                        pos = p;
                        let ghost bm = b@;
                        output.push(Value::Bytes(b));
                        assert(models(output@) =~= models(before) + seq![ValueModel::Bytes(bm)]);
                        proof {
                            match text_row(pld@.skip(pos as int)) {
                                Some(rest) => {
                                    assert(models(output@) + rest =~= models(before) + (seq![
                                        ValueModel::Bytes(bm),
                                    ] + rest));
                                },
                                None => {},
                            }
                        }
                    },
                }
            }
        }
        assert(pld@.skip(pos as int) =~= Seq::<u8>::empty());
        assert(models(output@) + Seq::<ValueModel>::empty() =~= models(output@));
        Some(output)
    }
}


/// The text-protocol cell of a NULL or bytes value: the NULL marker
/// `0xFB`, or the length-encoded string that `Value::to_bin` writes.
pub open spec fn text_cell(v: ValueModel) -> Seq<u8> {
    if v is Null {
        seq![0xFBu8]
    } else {
        bin_encoding(v)
    }
}

/// The text-protocol cells of `vs`, one after another.
pub open spec fn text_cells(vs: Seq<ValueModel>) -> Seq<u8>
    decreases vs.len(),
{
    if vs.len() == 0 {
        seq![]
    } else {
        text_cell(vs[0]) + text_cells(vs.drop_first())
    }
}

/// A row of NULL markers and length-encoded strings (`text_cells`) is read
/// back, in order, by `Value::from_payload` (`text_row`).
pub proof fn lemma_text_row_reads_back_cells(vs: Seq<ValueModel>)
    requires
        forall|i: int| 0 <= i < vs.len() ==> (#[trigger] vs[i] is Null || (vs[i] matches ValueModel::Bytes(b) && b.len() < pow256(8))),
    ensures
        text_row(text_cells(vs)) == Some(vs),
    decreases vs.len(),
{
    if vs.len() > 0 {
        let rest = text_cells(vs.drop_first());
        let s = text_cells(vs);
        assert forall|i: int| 0 <= i < vs.drop_first().len() implies (#[trigger] vs.drop_first()[i] is Null || (vs.drop_first()[i] matches ValueModel::Bytes(c) && c.len() < pow256(8))) by {
            assert(vs.drop_first()[i] == vs[i + 1]);
        }
        lemma_text_row_reads_back_cells(vs.drop_first());
        assert(vs[0] is Null || vs[0] is Bytes);
        if vs[0] is Null {
            assert(s == seq![0xFBu8] + rest);
            assert(s.drop_first() =~= rest);
            assert(seq![ValueModel::Null] + vs.drop_first() =~= vs);
        } else {
            let b = vs[0]->Bytes_0;
            assert(s == lenenc_bytes(b) + rest);
            lemma_lenenc_bytes_roundtrip(b, rest);
            lemma_pow256_values();
            assert(s[0] == lenenc_int(b.len())[0]);
            assert(s.skip(lenenc_bytes(b).len() as int) =~= rest);
            assert(seq![ValueModel::Bytes(b)] + vs.drop_first() =~= vs);
        }
    } else {
        assert(text_cells(vs) =~= Seq::<u8>::empty());
    }
}



pub const MYSQL_TYPE_DECIMAL: u8 = 0;
pub const MYSQL_TYPE_TINY: u8 = 1;
pub const MYSQL_TYPE_SHORT: u8 = 2;
pub const MYSQL_TYPE_LONG: u8 = 3;
pub const MYSQL_TYPE_FLOAT: u8 = 4;
pub const MYSQL_TYPE_DOUBLE: u8 = 5;
pub const MYSQL_TYPE_NULL: u8 = 6;
pub const MYSQL_TYPE_TIMESTAMP: u8 = 7;
pub const MYSQL_TYPE_LONGLONG: u8 = 8;
pub const MYSQL_TYPE_INT24: u8 = 9;
pub const MYSQL_TYPE_DATE: u8 = 10;
pub const MYSQL_TYPE_TIME: u8 = 11;
pub const MYSQL_TYPE_DATETIME: u8 = 12;
pub const MYSQL_TYPE_YEAR: u8 = 13;
pub const MYSQL_TYPE_VARCHAR: u8 = 15;
pub const MYSQL_TYPE_BIT: u8 = 16;
pub const MYSQL_TYPE_NEWDECIMAL: u8 = 246;
pub const MYSQL_TYPE_STRING: u8 = 254;

/// The column flag of unsigned integer columns.
pub const UNSIGNED_FLAG: u16 = 32;

/// What the row decoders read of a column definition.
#[derive(Clone, Copy, Debug, PartialEq, Eq)]
pub struct Column {
    pub column_type: u8,
    pub flags: u16,
}

/// Column types whose values travel as length-encoded strings.
pub open spec fn is_string_type(t: u8) -> bool {
    t == MYSQL_TYPE_DECIMAL || t == MYSQL_TYPE_VARCHAR || t == MYSQL_TYPE_BIT
        || t >= MYSQL_TYPE_NEWDECIMAL
}

/// Reads the binary date at the front of `s`: a length byte (0, 4, 7 or
/// 11) and that many bytes of fields.
pub open spec fn read_bin_date(s: Seq<u8>) -> Option<(ValueModel, nat)> {
    if s.len() == 0 {
        None
    } else if s[0] == 0 {
        Some((ValueModel::Date(0, 0, 0, 0, 0, 0, 0), 1))
    } else if (s[0] == 4 || s[0] == 7 || s[0] == 11) && s.len() >= 1 + s[0] {
        let y = le_value(s.subrange(1, 3)) as u16;
        let h = if s[0] >= 7 { s[5] } else { 0u8 };
        let i = if s[0] >= 7 { s[6] } else { 0u8 };
        let sec = if s[0] >= 7 { s[7] } else { 0u8 };
        let u = if s[0] == 11 { le_value(s.subrange(8, 12)) as u32 } else { 0u32 };
        Some((ValueModel::Date(y, s[3], s[4], h, i, sec, u), 1 + s[0] as nat))
    } else {
        None
    }
}

/// Reads the binary time at the front of `s`: a length byte (0, 8 or 12)
/// and that many bytes of fields; the sign byte is 1 for a negative time.
pub open spec fn read_bin_time(s: Seq<u8>) -> Option<(ValueModel, nat)> {
    if s.len() == 0 {
        None
    } else if s[0] == 0 {
        Some((ValueModel::Time(false, 0, 0, 0, 0, 0), 1))
    } else if (s[0] == 8 || s[0] == 12) && s.len() >= 1 + s[0] {
        let d = le_value(s.subrange(2, 6)) as u32;
        let u = if s[0] == 12 { le_value(s.subrange(9, 13)) as u32 } else { 0u32 };
        Some((ValueModel::Time(s[1] == 1, d, s[6], s[7], s[8], u), 1 + s[0] as nat))
    } else {
        None
    }
}

/// Reads the binary-protocol value of a column of type `t` at the front of
/// `s`: the value and the number of bytes it takes. Column types with no
/// encoding (such as `MYSQL_TYPE_NULL`) read NULL from no bytes.
pub open spec fn read_bin_value(s: Seq<u8>, t: u8, unsigned: bool) -> Option<(ValueModel, nat)> {
    if is_string_type(t) {
        match read_lenenc_bytes(s) {
            Some((b, k)) => Some((ValueModel::Bytes(b), k)),
            None => None,
        }
    } else if t == MYSQL_TYPE_TINY {
        if s.len() < 1 {
            None
        } else {
            Some((ValueModel::Int(if unsigned { s[0] as i64 } else { (s[0] as i8) as i64 }), 1))
        }
    } else if t == MYSQL_TYPE_SHORT || t == MYSQL_TYPE_YEAR {
        if s.len() < 2 {
            None
        } else {
            let x = le_value(s.take(2));
            Some((ValueModel::Int(if unsigned { x as i64 } else { ((x as u16) as i16) as i64 }), 2))
        }
    } else if t == MYSQL_TYPE_LONG || t == MYSQL_TYPE_INT24 {
        if s.len() < 4 {
            None
        } else {
            let x = le_value(s.take(4));
            Some((ValueModel::Int(if unsigned { x as i64 } else { ((x as u32) as i32) as i64 }), 4))
        }
    } else if t == MYSQL_TYPE_LONGLONG {
        if s.len() < 8 {
            None
        } else {
            let x = le_value(s.take(8));
            Some((if unsigned { ValueModel::UInt(x as u64) } else { ValueModel::Int((x as u64) as i64) }, 8))
        }
    } else if t == MYSQL_TYPE_FLOAT {
        if s.len() < 4 {
            None
        } else {
            Some((ValueModel::Float(widen_f32_bits(le_value(s.take(4)) as u32)), 4))
        }
    } else if t == MYSQL_TYPE_DOUBLE {
        if s.len() < 8 {
            None
        } else {
            Some((ValueModel::Float(le_value(s.take(8)) as u64), 8))
        }
    } else if t == MYSQL_TYPE_TIMESTAMP || t == MYSQL_TYPE_DATE || t == MYSQL_TYPE_DATETIME {
        read_bin_date(s)
    } else if t == MYSQL_TYPE_TIME {
        read_bin_time(s)
    } else {
        Some((ValueModel::Null, 0))
    }
}

/// Reads the binary-protocol value of a column of type `t` at `pos`
/// (`read_bin_value`): the value and the position after it.
pub fn read_bin_value_at(s: &[u8], pos: usize, t: u8, unsigned: bool) -> (r: Option<(Value, usize)>)
    requires
        pos <= s@.len(),
    ensures
        match read_bin_value(s@.skip(pos as int), t, unsigned) {
            None => r is None,
            Some((v, k)) => r matches Some((w, p)) && w@ == v && p == pos + k && p <= s@.len(),
        },
{
    let ghost q = s@.skip(pos as int);
    let avail = s.len() - pos;
    if t == MYSQL_TYPE_DECIMAL || t == MYSQL_TYPE_VARCHAR || t == MYSQL_TYPE_BIT || t >= MYSQL_TYPE_NEWDECIMAL {
        match read_lenenc_bytes_at(s, pos) {
            Some((b, p)) => Some((Value::Bytes(b), p)),
            None => None,
        }
    } else if t == MYSQL_TYPE_TINY {
        if avail < 1 {
            None
        } else {
            let b = s[pos];
            Some((Value::Int(if unsigned { b as i64 } else { (b as i8) as i64 }), pos + 1))
        }
    } else if t == MYSQL_TYPE_SHORT || t == MYSQL_TYPE_YEAR {
        if avail < 2 {
            None
        } else {
            let x = read_le(s, pos, 2);
            assert(q.take(2) =~= s@.subrange(pos as int, pos + 2));
            Some((Value::Int(if unsigned { x as i64 } else { ((x as u16) as i16) as i64 }), pos + 2))
        }
    } else if t == MYSQL_TYPE_LONG || t == MYSQL_TYPE_INT24 {
        if avail < 4 {
            None
        } else {
            let x = read_le(s, pos, 4);
            assert(q.take(4) =~= s@.subrange(pos as int, pos + 4));
            Some((Value::Int(if unsigned { x as i64 } else { ((x as u32) as i32) as i64 }), pos + 4))
        }
    } else if t == MYSQL_TYPE_LONGLONG {
        if avail < 8 {
            None
        } else {
            let x = read_le(s, pos, 8);
            assert(q.take(8) =~= s@.subrange(pos as int, pos + 8));
            Some((if unsigned { Value::UInt(x) } else { Value::Int(x as i64) }, pos + 8))
        }
    } else if t == MYSQL_TYPE_FLOAT {
        if avail < 4 {
            None
        } else {
            let x = read_le(s, pos, 4);
            assert(q.take(4) =~= s@.subrange(pos as int, pos + 4));
            Some((Value::Float(FloatBits(widen_f32(x as u32))), pos + 4))
        }
    } else if t == MYSQL_TYPE_DOUBLE {
        if avail < 8 {
            None
        } else {
            let x = read_le(s, pos, 8);
            assert(q.take(8) =~= s@.subrange(pos as int, pos + 8));
            Some((Value::Float(FloatBits(x)), pos + 8))
        }
    } else if t == MYSQL_TYPE_TIMESTAMP || t == MYSQL_TYPE_DATE || t == MYSQL_TYPE_DATETIME {
        if avail < 1 {
            return None;
        }
        let l = s[pos];
        if l == 0 {
            Some((Value::Date(0, 0, 0, 0, 0, 0, 0), pos + 1))
        } else if (l == 4 || l == 7 || l == 11) && avail >= 1 + l as usize {
            let y = read_le(s, pos + 1, 2);
            assert(q.subrange(1, 3) =~= s@.subrange(pos + 1, pos + 3));
            let (h, i, sec) = if l >= 7 { (s[pos + 5], s[pos + 6], s[pos + 7]) } else { (0u8, 0u8, 0u8) };
            let u = if l == 11 {
                let u = read_le(s, pos + 8, 4);
                assert(q.subrange(8, 12) =~= s@.subrange(pos + 8, pos + 12));
                u as u32
            } else {
                0u32
            };
            Some((Value::Date(y as u16, s[pos + 3], s[pos + 4], h, i, sec, u), pos + 1 + l as usize))
        } else {
            None
        }
    } else if t == MYSQL_TYPE_TIME {
        if avail < 1 {
            return None;
        }
        let l = s[pos];
        if l == 0 {
            Some((Value::Time(false, 0, 0, 0, 0, 0), pos + 1))
        } else if (l == 8 || l == 12) && avail >= 1 + l as usize {
            let d = read_le(s, pos + 2, 4);
            assert(q.subrange(2, 6) =~= s@.subrange(pos + 2, pos + 6));
            let u = if l == 12 {
                let u = read_le(s, pos + 9, 4);
                assert(q.subrange(9, 13) =~= s@.subrange(pos + 9, pos + 13));
                u as u32
            } else {
                0u32
            };
            Some((
                Value::Time(s[pos + 1] == 1, d as u32, s[pos + 6], s[pos + 7], s[pos + 8], u),
                pos + 1 + l as usize,
            ))
        } else {
            None
        }
    } else {
        Some((Value::NULL, pos))
    }
}


/// The column type under which the binary encoding of `v` is read back:
/// `LONGLONG` for integers, `DOUBLE` for floats, `STRING` for bytes,
/// `DATETIME` for dates, `TIME` for times, `NULL` for NULL.
pub open spec fn bin_column_type(v: ValueModel) -> u8 {
    match v {
        ValueModel::Null => MYSQL_TYPE_NULL,
        ValueModel::Bytes(_) => MYSQL_TYPE_STRING,
        ValueModel::Int(_) => MYSQL_TYPE_LONGLONG,
        ValueModel::UInt(_) => MYSQL_TYPE_LONGLONG,
        ValueModel::Float(_) => MYSQL_TYPE_DOUBLE,
        ValueModel::Date(..) => MYSQL_TYPE_DATETIME,
        ValueModel::Time(..) => MYSQL_TYPE_TIME,
    }
}

/// What `Value::to_bin` writes, the binary row decoder reads back as the
/// same value, for a column of the value's type (unsigned for `UInt`),
/// whatever follows it. A negative zero time is the exception: it is
/// written as the empty time, which reads as a non-negative zero time.
pub proof fn lemma_bin_value_roundtrip(v: ValueModel, rest: Seq<u8>)
    requires
        v matches ValueModel::Bytes(b) ==> b.len() < pow256(8),
        !(v matches ValueModel::Time(n, d, h, i, s, u) && n && d == 0 && h == 0 && i == 0 && s
            == 0 && u == 0),
    ensures
        read_bin_value(bin_encoding(v) + rest, bin_column_type(v), v is UInt) == Some(
            (v, bin_encoding(v).len()),
        ),
{
    lemma_pow256_values();
    let e = bin_encoding(v);
    let s = e + rest;
    match v {
        ValueModel::Null => {
            assert(e.len() == 0);
        },
        ValueModel::Bytes(b) => {
            lemma_lenenc_bytes_roundtrip(b, rest);
        },
        ValueModel::Int(x) => {
            lemma_le_roundtrip((x as u64) as nat, 8);
            assert(s.take(8) =~= e);
            assert(((x as u64) as i64) == x) by (bit_vector);
        },
        ValueModel::UInt(x) => {
            lemma_le_roundtrip(x as nat, 8);
            assert(s.take(8) =~= e);
        },
        ValueModel::Float(x) => {
            lemma_le_roundtrip(x as nat, 8);
            assert(s.take(8) =~= e);
        },
        ValueModel::Date(y, m, d, h, i, sec, u) => {
            lemma_le_roundtrip(y as nat, 2);
            lemma_le_roundtrip(u as nat, 4);
            if !(y == 0 && m == 0 && d == 0 && h == 0 && i == 0 && sec == 0 && u == 0) {
                assert(s.subrange(1, 3) =~= le_bytes(y as nat, 2));
                if u != 0 {
                    assert(s.subrange(8, 12) =~= le_bytes(u as nat, 4));
                }
            }
        },
        ValueModel::Time(n, d, h, i, sec, u) => {
            lemma_le_roundtrip(d as nat, 4);
            lemma_le_roundtrip(u as nat, 4);
            if !(d == 0 && h == 0 && i == 0 && sec == 0 && u == 0) {
                assert(s.subrange(2, 6) =~= le_bytes(d as nat, 4));
                if u != 0 {
                    assert(s.subrange(9, 13) =~= le_bytes(u as nat, 4));
                }
            }
        },
    }
}


/// The integer columns of a binary row read the little-endian bytes of
/// their width (1 byte for `TINY`, 2 for `SHORT` and `YEAR`, 4 for `LONG`
/// and `INT24`, 8 for `LONGLONG`): a column with the unsigned flag reads
/// the unsigned number `x` they spell, a signed column its two's-complement
/// value (`x` less 2 to the width's bit count when the top bit is set),
/// whatever follows them.
pub proof fn lemma_bin_int_columns(x: nat, rest: Seq<u8>)
    ensures
        x < 0x100 ==> {
            let s = le_bytes(x, 1) + rest;
            &&& read_bin_value(s, MYSQL_TYPE_TINY, true) == Some((ValueModel::Int(x as i64), 1nat))
            &&& read_bin_value(s, MYSQL_TYPE_TINY, false) == Some(
                (ValueModel::Int((if x < 0x80 { x as int } else { x - 0x100 }) as i64), 1nat),
            )
        },
        x < 0x1_0000 ==> forall|t: u8|
            #![trigger read_bin_value(le_bytes(x, 2) + rest, t, true)]
            t == MYSQL_TYPE_SHORT || t == MYSQL_TYPE_YEAR ==> {
                let s = le_bytes(x, 2) + rest;
                &&& read_bin_value(s, t, true) == Some((ValueModel::Int(x as i64), 2nat))
                &&& read_bin_value(s, t, false) == Some(
                    (ValueModel::Int((if x < 0x8000 { x as int } else { x - 0x1_0000 }) as i64), 2nat),
                )
            },
        x < 0x1_0000_0000 ==> forall|t: u8|
            #![trigger read_bin_value(le_bytes(x, 4) + rest, t, true)]
            t == MYSQL_TYPE_LONG || t == MYSQL_TYPE_INT24 ==> {
                let s = le_bytes(x, 4) + rest;
                &&& read_bin_value(s, t, true) == Some((ValueModel::Int(x as i64), 4nat))
                &&& read_bin_value(s, t, false) == Some(
                    (
                        ValueModel::Int(
                            (if x < 0x8000_0000 { x as int } else { x - 0x1_0000_0000 }) as i64,
                        ),
                        4nat,
                    ),
                )
            },
        x < 0x1_0000_0000_0000_0000 ==> {
            let s = le_bytes(x, 8) + rest;
            &&& read_bin_value(s, MYSQL_TYPE_LONGLONG, true) == Some((ValueModel::UInt(x as u64), 8nat))
            &&& read_bin_value(s, MYSQL_TYPE_LONGLONG, false) == Some(
                (
                    ValueModel::Int(
                        (if x < 0x8000_0000_0000_0000 { x as int } else { x - 0x1_0000_0000_0000_0000 }) as i64,
                    ),
                    8nat,
                ),
            )
        },
{
    lemma_pow256_values();
    if x < 0x100 {
        lemma_le_roundtrip(x, 1);
        assert((le_bytes(x, 1) + rest)[0] == le_bytes(x, 1)[0]);
        assert(le_bytes(x, 1)[0] as nat == x) by {
            assert(le_bytes(x, 1) =~= seq![(x % 256) as u8]);
        }
        let b = x as u8;
        assert(((b as i8) as i64) as int == (if b < 0x80 { b as int } else { b - 0x100 })) by (bit_vector);
    }
    if x < 0x1_0000 {
        lemma_le_roundtrip(x, 2);
        assert((le_bytes(x, 2) + rest).take(2) =~= le_bytes(x, 2));
        let b = x as u16;
        assert(((b as i16) as i64) as int == (if b < 0x8000 { b as int } else { b - 0x1_0000 })) by (bit_vector);
    }
    if x < 0x1_0000_0000 {
        lemma_le_roundtrip(x, 4);
        assert((le_bytes(x, 4) + rest).take(4) =~= le_bytes(x, 4));
        let b = x as u32;
        assert(((b as i32) as i64) as int == (if b < 0x8000_0000 { b as int } else { b - 0x1_0000_0000 })) by (bit_vector);
    }
    if x < 0x1_0000_0000_0000_0000 {
        lemma_le_roundtrip(x, 8);
        assert((le_bytes(x, 8) + rest).take(8) =~= le_bytes(x, 8));
        let b = x as u64;
        assert((b as i64) as int == (if b < 0x8000_0000_0000_0000 { b as int } else { b - 0x1_0000_0000_0000_0000 })) by (bit_vector);
    }
}


/// The length of the null bitmap of a binary row of `n` columns, whose
/// first two bits are reserved.
pub open spec fn null_bitmap_len(n: nat) -> nat {
    (n + 9) / 8
}

/// Whether bit `j` of `bitmap` is set.
pub open spec fn bit_set(bitmap: Seq<u8>, j: nat) -> bool {
    bitmap[(j / 8) as int] & (1u8 << ((j % 8) as u8)) != 0
}

/// The values of columns `i..` of a binary row whose values start at the
/// front of `data`: NULL where the null bitmap marks the column (at bit
/// `i + 2`), else the value read for the column's type and signedness.
pub open spec fn bin_values(data: Seq<u8>, bitmap: Seq<u8>, cols: Seq<Column>, i: nat) -> Option<
    Seq<ValueModel>,
>
    decreases cols.len() - i,
{
    if i >= cols.len() {
        Some(seq![])
    } else if bit_set(bitmap, i + 2) {
        match bin_values(data, bitmap, cols, i + 1) {
            Some(rest) => Some(seq![ValueModel::Null] + rest),
            None => None,
        }
    } else {
        match read_bin_value(data, cols[i as int].column_type, cols[i as int].flags & UNSIGNED_FLAG != 0) {
            None => None,
            Some((v, k)) => if k <= data.len() {
                match bin_values(data.skip(k as int), bitmap, cols, i + 1) {
                    Some(rest) => Some(seq![v] + rest),
                    None => None,
                }
            } else {
                None
            },
        }
    }
}

/// A binary-protocol row: a header byte, the null bitmap, then the values
/// of the columns that are not NULL.
pub open spec fn bin_row(pld: Seq<u8>, cols: Seq<Column>) -> Option<Seq<ValueModel>> {
    let bl = null_bitmap_len(cols.len());
    bin_values(pld.skip(1 + bl as int), pld.subrange(1, 1 + bl as int), cols, 0)
}

impl Value {
    /// Decodes a binary-protocol row (`bin_row`); `None` when a value is
    /// cut short or malformed.
    #[verifier::rlimit(40)]
    #[verifier::spinoff_prover]
    pub fn from_bin_payload(pld: &[u8], columns: &[Column]) -> (r: Option<Vec<Value>>)
        requires
            columns@.len() + 9 <= usize::MAX,
            pld@.len() >= 1 + null_bitmap_len(columns@.len()),
        ensures
            match bin_row(pld@, columns@) {
                None => r is None,
                Some(vals) => r matches Some(out) && models(out@) == vals,
            },
    {
        let bit_offset: usize = 2;
        let bitmap_len = (columns.len() + 7 + bit_offset) / 8;
        let mut bitmap: Vec<u8> = Vec::with_capacity(bitmap_len);
        let mut i: usize = 0;
        while i < bitmap_len
            invariant
                bitmap_len == null_bitmap_len(columns@.len()),
                1 + bitmap_len <= pld@.len(),
                i <= bitmap_len,
                bitmap@ == pld@.subrange(1, 1 + i as int),
            decreases bitmap_len - i,
        {
            bitmap.push(pld[i + 1]);
            i = i + 1;
            assert(bitmap@ =~= pld@.subrange(1, 1 + i as int));
        }
        let ghost cols = columns@;
        let ghost bm = bitmap@;
        let mut pos: usize = 1 + bitmap_len;
        let mut values: Vec<Value> = Vec::new();
        let mut i: usize = 0;
        assert(models(values@) =~= Seq::<ValueModel>::empty());
        proof {
            match bin_values(pld@.skip(pos as int), bm, cols, 0) {
                Some(rest) => {
                    assert(models(values@) + rest =~= rest);
                },
                None => {},
            }
        }
        while i < columns.len()
            invariant
                cols == columns@,
                bm == bitmap@,
                bitmap@.len() == null_bitmap_len(cols.len()),
                cols.len() + 9 <= usize::MAX,
                i <= cols.len(),
                pos <= pld@.len(),
                bin_row(pld@, cols) == match bin_values(pld@.skip(pos as int), bm, cols, i as nat) {
                    Some(rest) => Some(models(values@) + rest),
                    None => None,
                },
            decreases cols.len() - i,
        {
            let ghost before = values@;
            let ghost old_pos = pos;
            let j = i + 2;
            assert((i + 2) / 8 < (cols.len() + 9) / 8) by (nonlinear_arith)
                requires
                    i < cols.len(),
            ;
            let mask: u8 = 1u8 << ((j % 8) as u8);
            assert(bit_set(bm, (i + 2) as nat) == (bitmap@[(j / 8) as int] & mask != 0));
            if bitmap[j / 8] & mask == 0 {
                let col = columns[i];
                match read_bin_value_at(pld, pos, col.column_type, col.flags & UNSIGNED_FLAG != 0) {
                    None => {
                        return None;
                    },
                    Some((v, p)) => {
                        let ghost vm = v@;
                        assert(pld@.skip(pos as int).skip((p - pos) as int) =~= pld@.skip(p as int));
                        pos = p;
                        assert(bin_values(pld@.skip(old_pos as int), bm, cols, i as nat) == match bin_values(pld@.skip(pos as int), bm, cols, (i + 1) as nat) {
                            Some(rest) => Some(seq![vm] + rest),
                            None => None,
                        });
                        values.push(v);
                        assert(models(values@) =~= models(before) + seq![vm]);
                        proof {
                            match bin_values(pld@.skip(pos as int), bm, cols, (i + 1) as nat) {
                                Some(rest) => {
                                    assert(models(values@) + rest =~= models(before) + (seq![vm] + rest));
                                },
                                None => {},
                            }
                        }
                    },
                }
            } else {
                assert(bin_values(pld@.skip(pos as int), bm, cols, i as nat) == match bin_values(pld@.skip(pos as int), bm, cols, (i + 1) as nat) {
                    Some(rest) => Some(seq![ValueModel::Null] + rest),
                    None => None,
                });
                values.push(Value::NULL);
                assert(models(values@) =~= models(before) + seq![ValueModel::Null]);
                proof {
                    match bin_values(pld@.skip(pos as int), bm, cols, (i + 1) as nat) {
                        Some(rest) => {
                            assert(models(values@) + rest =~= models(before) + (seq![ValueModel::Null] + rest));
                        },
                        None => {},
                    }
                }
            }
            i = i + 1;
        }
        assert(models(values@) + Seq::<ValueModel>::empty() =~= models(values@));
        Some(values)
    }
}


/// A binary row of one column: with the column's null bit set it is NULL;
/// otherwise it is the value read for the column's type, unsigned exactly
/// when the column carries `UNSIGNED_FLAG`, and the row does not decode
/// when that value does not. An `INT UNSIGNED` column holding the 4-byte
/// number `x` reads `x`, however large.
pub proof fn lemma_bin_row_one_column(header: u8, c: Column, s: Seq<u8>, x: nat)
    ensures
        bin_row(seq![header, 4u8] + s, seq![c]) == Some(seq![ValueModel::Null]),
        match read_bin_value(s, c.column_type, c.flags & UNSIGNED_FLAG != 0) {
            Some((v, k)) => k <= s.len() ==> bin_row(seq![header, 0u8] + s, seq![c]) == Some(
                seq![v],
            ),
            None => bin_row(seq![header, 0u8] + s, seq![c]) is None,
        },
        c.column_type == MYSQL_TYPE_LONG && c.flags & UNSIGNED_FLAG != 0 && x < 0x1_0000_0000
            ==> bin_row(seq![header, 0u8] + le_bytes(x, 4), seq![c]) == Some(
            seq![ValueModel::Int(x as i64)],
        ),
{
    let cols = seq![c];
    assert(null_bitmap_len(1) == 1);
    let p1 = seq![header, 4u8] + s;
    let p0 = seq![header, 0u8] + s;
    assert(p1.subrange(1, 2) =~= seq![4u8]);
    assert(p0.subrange(1, 2) =~= seq![0u8]);
    assert(p1.skip(2) =~= s);
    assert(p0.skip(2) =~= s);
    assert(4u8 & (1u8 << 2u8) != 0) by (bit_vector);
    assert(0u8 & (1u8 << 2u8) == 0) by (bit_vector);
    assert(bit_set(seq![4u8], 2));
    assert(!bit_set(seq![0u8], 2));
    assert(bin_values(s, seq![4u8], cols, 1) == Some(Seq::<ValueModel>::empty()));
    assert(seq![ValueModel::Null] + Seq::<ValueModel>::empty() =~= seq![ValueModel::Null]);
    match read_bin_value(s, c.column_type, c.flags & UNSIGNED_FLAG != 0) {
        Some((v, k)) => {
            if k <= s.len() {
                assert(bin_values(s.skip(k as int), seq![0u8], cols, 1) == Some(Seq::<ValueModel>::empty()));
                assert(seq![v] + Seq::<ValueModel>::empty() =~= seq![v]);
            }
        },
        None => {},
    }
    if c.column_type == MYSQL_TYPE_LONG && c.flags & UNSIGNED_FLAG != 0 && x < 0x1_0000_0000 {
        lemma_bin_int_columns(x, seq![]);
        lemma_pow256_values();
        lemma_le_roundtrip(x, 4);
        let e = le_bytes(x, 4);
        assert(e + Seq::<u8>::empty() =~= e);
        assert(read_bin_value(e, MYSQL_TYPE_LONG, true) == Some((ValueModel::Int(x as i64), 4nat)));
        let q = seq![header, 0u8] + e;
        assert(q.subrange(1, 2) =~= seq![0u8]);
        assert(q.skip(2) =~= e);
        assert(bin_values(e.skip(4), seq![0u8], cols, 1) == Some(Seq::<ValueModel>::empty()));
        assert(seq![ValueModel::Int(x as i64)] + Seq::<ValueModel>::empty() =~= seq![ValueModel::Int(x as i64)]);
    }
}


/// The state of the statement-parameter encoder after the first `k`
/// values: the null bitmap, the encoded values, the number of bytes
/// written, and the indices of the values left for long-data packets.
/// NULL sets bit `k` of the bitmap; a value whose encoding is shorter than
/// what is left of `cap` is appended; any other value is left out and its
/// index noted.
pub open spec fn params_state(values: Seq<ValueModel>, bitmap_len: nat, cap: int, k: nat) -> (
    Seq<u8>,
    Seq<u8>,
    int,
    Seq<u16>,
)
    decreases k,
{
    if k == 0 {
        (Seq::new(bitmap_len, |i: int| 0u8), seq![], 0, seq![])
    } else {
        let (bm, data, written, large) = params_state(values, bitmap_len, cap, (k - 1) as nat);
        let j = k - 1;
        if values[j] is Null {
            (bm.update(j / 8, bm[j / 8] | (1u8 << ((j % 8) as u8))), data, written, large)
        } else {
            let e = bin_encoding(values[j]);
            if e.len() < cap - written {
                (bm, data + e, written + e.len(), large)
            } else {
                (bm, data, written, large.push(j as u16))
            }
        }
    }
}

/// The statement-parameter payload of `values` for `n_params` parameters
/// (`params_state` after all values): the null bitmap, the encoded values,
/// and the indices left for long-data packets when there are any.
pub open spec fn params_payload(
    n_params: nat,
    values: Seq<ValueModel>,
    max_allowed_packet: nat,
) -> (Seq<u8>, Seq<u8>, Option<Seq<u16>>) {
    let bitmap_len = (n_params + 7) / 8;
    let cap = max_allowed_packet - bitmap_len - values.len() * 8;
    let (bm, data, written, large) = params_state(values, bitmap_len, cap, values.len());
    (bm, data, if large.len() == 0 { None } else { Some(large) })
}

impl Value {
    /// The statement-parameter payload (`params_payload`): null bitmap,
    /// encoded values within the packet budget, and the indices of the
    /// values to send as long data.
    pub fn to_bin_payload(params: &[Column], values: &[Value], max_allowed_packet: usize) -> (r: (
        Vec<u8>,
        Vec<u8>,
        Option<Vec<u16>>,
    ))
        requires
            params@.len() + 7 <= usize::MAX,
            values@.len() <= 65535,
            (params@.len() + 7) / 8 + values@.len() * 8 <= max_allowed_packet,
            forall|k: int|
                0 <= k < values@.len() && values@[k] is NULL ==> k / 8 < (params@.len() + 7) / 8,
        ensures
            ({
                let (bm, data, large) = params_payload(
                    params@.len(),
                    models(values@),
                    max_allowed_packet as nat,
                );
                &&& r.0@ == bm
                &&& r.1@ == data
                &&& match large {
                    None => r.2 is None,
                    Some(l) => r.2 matches Some(v) && v@ == l,
                }
            }),
    {
        let bitmap_len = (params.len() + 7) / 8;
        let mut large_ids: Vec<u16> = Vec::new();
        let mut writer: Vec<u8> = Vec::new();
        let mut bitmap: Vec<u8> = Vec::new();
        let mut z: usize = 0;
        while z < bitmap_len
            invariant
                z <= bitmap_len,
                bitmap@ == Seq::new(z as nat, |i: int| 0u8),
            decreases bitmap_len - z,
        {
            bitmap.push(0);
            z = z + 1;
            assert(bitmap@ =~= Seq::new(z as nat, |i: int| 0u8));
        }
        let mut i: u16 = 0;
        let mut written: usize = 0;
        let cap = max_allowed_packet - bitmap_len - values.len() * 8;
        let ghost vals = models(values@);
        let ghost n = values@.len();
        while (i as usize) < values.len()
            invariant
                vals == models(values@),
                n == values@.len(),
                n <= 65535,
                bitmap_len == (params@.len() + 7) / 8,
                cap == max_allowed_packet - bitmap_len - n * 8,
                forall|k: int| 0 <= k < n && values@[k] is NULL ==> k / 8 < bitmap_len,
                i <= n,
                bitmap@.len() == bitmap_len,
                written <= cap,
                params_state(vals, bitmap_len as nat, cap as int, i as nat) == (
                    bitmap@,
                    writer@,
                    written as int,
                    large_ids@,
                ),
            decreases n - i,
        {
            let ghost k = i as int;
            let value = &values[i as usize];
            assert(vals[k] == value@);
            match value {
                Value::NULL => {
                    assert(values@[k] is NULL);
                    let idx = (i / 8) as usize;
                    let mask: u8 = 1u8 << ((i % 8) as u8);
                    let cur = bitmap[idx];
                    bitmap.set(idx, cur | mask);
                },
                _ => {
                    let val = value.to_bin();
                    if val.len() < cap - written {
                        written = written + val.len();
                        push_slice(&mut writer, val.as_slice());
                    } else {
                        large_ids.push(i);
                    }
                },
            }
            i = i + 1;
        }
        assert(i as nat == vals.len());
        if large_ids.len() == 0 {
            (bitmap, writer, None)
        } else {
            (bitmap, writer, Some(large_ids))
        }
    }
}


/// Along the parameter encoder, the bytes written are the encoded values
/// appended so far, within the budget, and the bitmap keeps its length.
proof fn lemma_params_state_within_budget(values: Seq<ValueModel>, bitmap_len: nat, cap: int, k: nat)
    requires
        cap >= 0,
        k <= values.len(),
        forall|j: int| 0 <= j < values.len() && values[j] is Null ==> j / 8 < bitmap_len,
    ensures
        ({
            let (bm, data, written, large) = params_state(values, bitmap_len, cap, k);
            &&& data.len() == written
            &&& 0 <= written <= cap
            &&& bm.len() == bitmap_len
            &&& large.len() <= k
        }),
    decreases k,
{
    if k > 0 {
        lemma_params_state_within_budget(values, bitmap_len, cap, (k - 1) as nat);
    }
}

/// The encoded values of a statement-parameter payload never exceed the
/// packet budget: `max_allowed_packet` less the null bitmap and eight bytes
/// per value. The bitmap has one bit per parameter, and no more indices are
/// left for long data than there are values. (NULL values must have their
/// bit within the bitmap, as the encoder requires.)
pub proof fn lemma_params_payload_within_budget(
    n_params: nat,
    values: Seq<ValueModel>,
    max_allowed_packet: nat,
)
    requires
        (n_params + 7) / 8 + values.len() * 8 <= max_allowed_packet,
        forall|j: int| 0 <= j < values.len() && values[j] is Null ==> j / 8 < (n_params + 7) / 8,
    ensures
        ({
            let (bm, data, large) = params_payload(n_params, values, max_allowed_packet);
            &&& data.len() <= max_allowed_packet - (n_params + 7) / 8 - values.len() * 8
            &&& bm.len() == (n_params + 7) / 8
            &&& large matches Some(l) ==> 0 < l.len() <= values.len()
        }),
{
    let bitmap_len = (n_params + 7) / 8;
    let cap = max_allowed_packet - bitmap_len - values.len() * 8;
    lemma_params_state_within_budget(values, bitmap_len, cap, values.len());
}


/// The encoded values of the parameters `0..k` that are neither NULL nor
/// listed in `large`, one after another.
pub open spec fn kept_data(values: Seq<ValueModel>, large: Seq<u16>, k: nat) -> Seq<u8>
    decreases k,
{
    if k == 0 {
        seq![]
    } else {
        let j = (k - 1) as nat;
        kept_data(values, large, j) + if values[j as int] is Null || large.contains(j as u16) {
            seq![]
        } else {
            bin_encoding(values[j as int])
        }
    }
}

/// Whether the encoder leaves parameter `i` for long data: it is not NULL
/// and its encoding does not fit in what is left of `cap` after the bytes
/// written for the parameters before it.
spec fn left_for_long_data(values: Seq<ValueModel>, bitmap_len: nat, cap: int, i: nat) -> bool {
    !(values[i as int] is Null) && bin_encoding(values[i as int]).len() >= cap - params_state(
        values,
        bitmap_len,
        cap,
        i,
    ).1.len()
}

/// After `k` parameters, the indices noted for long data are exactly those
/// below `k` that the encoder left out.
proof fn lemma_params_state_large(values: Seq<ValueModel>, bitmap_len: nat, cap: int, k: nat)
    requires
        cap >= 0,
        k <= values.len() <= 65535,
        forall|j: int| 0 <= j < values.len() && values[j] is Null ==> j / 8 < bitmap_len,
    ensures
        forall|i: u16|
            #![trigger params_state(values, bitmap_len, cap, k).3.contains(i)]
            params_state(values, bitmap_len, cap, k).3.contains(i) <==> (i < k
                && left_for_long_data(values, bitmap_len, cap, i as nat)),
    decreases k,
{
    broadcast use vstd::seq_lib::lemma_seq_contains_after_push;

    if k > 0 {
        let j = (k - 1) as nat;
        lemma_params_state_large(values, bitmap_len, cap, j);
        lemma_params_state_within_budget(values, bitmap_len, cap, j);
        let prev = params_state(values, bitmap_len, cap, j).3;
        let cur = params_state(values, bitmap_len, cap, k).3;
        assert forall|i: u16| cur.contains(i) <==> (i < k && left_for_long_data(values, bitmap_len, cap, i as nat)) by {
            assert(prev.contains(i) <==> (i < j && left_for_long_data(values, bitmap_len, cap, i as nat)));
            if left_for_long_data(values, bitmap_len, cap, j) {
                assert(cur == prev.push(j as u16));
            } else {
                assert(cur == prev);
            }
        }
    }
}

/// With `large` listing exactly the parameters the encoder leaves out, the
/// bytes written for the first `k` parameters are `kept_data`.
proof fn lemma_params_state_data(
    values: Seq<ValueModel>,
    bitmap_len: nat,
    cap: int,
    large: Seq<u16>,
    k: nat,
)
    requires
        cap >= 0,
        k <= values.len() <= 65535,
        forall|j: int| 0 <= j < values.len() && values[j] is Null ==> j / 8 < bitmap_len,
        forall|i: u16|
            i < values.len() ==> (large.contains(i) <==> left_for_long_data(
                values,
                bitmap_len,
                cap,
                i as nat,
            )),
    ensures
        params_state(values, bitmap_len, cap, k).1 == kept_data(values, large, k),
    decreases k,
{
    if k > 0 {
        let j = (k - 1) as nat;
        lemma_params_state_data(values, bitmap_len, cap, large, j);
        lemma_params_state_within_budget(values, bitmap_len, cap, j);
        assert(large.contains(j as u16) <==> left_for_long_data(values, bitmap_len, cap, j));
        assert(params_state(values, bitmap_len, cap, k).1 =~= kept_data(values, large, k));
    }
}

/// The statement-parameter encoder decides each parameter on its own: a
/// parameter that is not NULL is listed for long data exactly when its
/// encoding does not fit in what is left of the budget (`max_allowed_packet`
/// less the null bitmap and eight bytes per value) after the encodings
/// written before it; every other non-NULL parameter is written, in order,
/// so a value that fits is written even after an earlier one went to long
/// data. NULL parameters are never listed, and only indices of parameters
/// are.
pub proof fn lemma_params_payload_long_data(
    n_params: nat,
    values: Seq<ValueModel>,
    max_allowed_packet: nat,
)
    requires
        values.len() <= 65535,
        (n_params + 7) / 8 + values.len() * 8 <= max_allowed_packet,
        forall|j: int| 0 <= j < values.len() && values[j] is Null ==> j / 8 < (n_params + 7) / 8,
    ensures
        ({
            let (bm, data, large) = params_payload(n_params, values, max_allowed_packet);
            let l = match large {
                Some(l) => l,
                None => seq![],
            };
            let cap = max_allowed_packet - (n_params + 7) / 8 - values.len() * 8;
            &&& data == kept_data(values, l, values.len())
            &&& forall|j: int|
                0 <= j < values.len() && !(values[j] is Null) ==> (#[trigger] l.contains(j as u16)
                    <==> bin_encoding(values[j]).len() >= cap - kept_data(values, l, j as nat).len())
            &&& forall|j: int| 0 <= j < values.len() && values[j] is Null ==> !#[trigger] l.contains(j as u16)
            &&& forall|i: u16| #[trigger] l.contains(i) ==> i < values.len()
        }),
{
    let bitmap_len = (n_params + 7) / 8;
    let cap = max_allowed_packet - bitmap_len - values.len() * 8;
    let n = values.len();
    lemma_params_state_large(values, bitmap_len, cap, n);
    let large = params_state(values, bitmap_len, cap, n).3;
    let (bm, data, lo) = params_payload(n_params, values, max_allowed_packet);
    let l = match lo {
        Some(l) => l,
        None => seq![],
    };
    assert(l =~= large);
    assert forall|i: u16| i < values.len() implies (large.contains(i) <==> left_for_long_data(
        values,
        bitmap_len,
        cap,
        i as nat,
    )) by {}
    lemma_params_state_data(values, bitmap_len, cap, large, n);
    assert forall|j: int| 0 <= j < values.len() && !(values[j] is Null) implies (#[trigger] l.contains(j as u16)
        <==> bin_encoding(values[j]).len() >= cap - kept_data(values, l, j as nat).len()) by {
        lemma_params_state_data(values, bitmap_len, cap, large, j as nat);
        assert(large.contains(j as u16) <==> left_for_long_data(values, bitmap_len, cap, (j as u16) as nat));
    }
    assert forall|j: int| 0 <= j < values.len() && values[j] is Null implies !#[trigger] l.contains(j as u16) by {
        assert(large.contains(j as u16) <==> left_for_long_data(values, bitmap_len, cap, (j as u16) as nat));
    }
}

} // verus!
