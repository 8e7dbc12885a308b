use vstd::prelude::*;
use vstd::utf8::{decode_utf8, valid_utf8};

verus! {

/// The upper-case hexadecimal digit of `d` (for `d < 16`), which is also the
/// decimal digit of `d` for `d < 10`.
pub open spec fn digit(d: int) -> char {
    if d == 0 { '0' }
    else if d == 1 { '1' }
    else if d == 2 { '2' }
    else if d == 3 { '3' }
    else if d == 4 { '4' }
    else if d == 5 { '5' }
    else if d == 6 { '6' }
    else if d == 7 { '7' }
    else if d == 8 { '8' }
    else if d == 9 { '9' }
    else if d == 10 { 'A' }
    else if d == 11 { 'B' }
    else if d == 12 { 'C' }
    else if d == 13 { 'D' }
    else if d == 14 { 'E' }
    else { 'F' }
}

/// The decimal representation of `n`, without leading zeros.
pub open spec fn dec(n: nat) -> Seq<char>
    decreases n,
{
    if n < 10 {
        seq![digit(n as int)]
    } else {
        dec(n / 10).push(digit((n % 10) as int))
    }
}

/// `s` left-padded with `'0'` to at least `width` characters.
pub open spec fn zero_pad(s: Seq<char>, width: nat) -> Seq<char> {
    if s.len() < width {
        Seq::new((width - s.len()) as nat, |i: int| '0') + s
    } else {
        s
    }
}

/// The decimal representation of a signed integer.
pub open spec fn signed_dec(x: int) -> Seq<char> {
    if x < 0 {
        seq!['-'] + dec((-x) as nat)
    } else {
        dec(x as nat)
    }
}

fn digit_char(d: u64) -> (c: char)
    requires
        d < 16,
    ensures
        c == digit(d as int),
{
    if d == 0 { '0' }
    else if d == 1 { '1' }
    else if d == 2 { '2' }
    else if d == 3 { '3' }
    else if d == 4 { '4' }
    else if d == 5 { '5' }
    else if d == 6 { '6' }
    else if d == 7 { '7' }
    else if d == 8 { '8' }
    else if d == 9 { '9' }
    else if d == 10 { 'A' }
    else if d == 11 { 'B' }
    else if d == 12 { 'C' }
    else if d == 13 { 'D' }
    else if d == 14 { 'E' }
    else { 'F' }
}

/// Appends the decimal representation of `n`.
pub fn push_dec(out: &mut Vec<char>, n: u64)
    ensures
        final(out)@ == old(out)@ + dec(n as nat),
    decreases n,
{
    if n >= 10 {
        push_dec(out, n / 10);
    }
    out.push(digit_char(n % 10));
    assert(out@ =~= old(out)@ + dec(n as nat));
}


/// The number of decimal digits of `n`.
fn dec_len(n: u64) -> (r: u64)
    ensures
        r == dec(n as nat).len(),
        r <= n + 1,
    decreases n,
{
    if n < 10 {
        1
    } else {
        dec_len(n / 10) + 1
    }
}

/// Appends the decimal representation of `n`, left-padded with zeros to
/// `width` characters.
pub fn push_padded(out: &mut Vec<char>, n: u64, width: u64)
    ensures
        final(out)@ == old(out)@ + zero_pad(dec(n as nat), width as nat),
{
    let len = dec_len(n);
    if len < width {
        let zeros = width - len;
        let mut k: u64 = 0;
        while k < zeros
            invariant
                k <= zeros,
                out@ == old(out)@ + Seq::new(k as nat, |i: int| '0'),
            decreases zeros - k,
        {
            out.push('0');
            k = k + 1;
            assert(out@ =~= old(out)@ + Seq::new(k as nat, |i: int| '0'));
        }
        push_dec(out, n);
        assert(out@ =~= old(out)@ + zero_pad(dec(n as nat), width as nat));
    } else {
        push_dec(out, n);
    }
}

/// The upper-case hexadecimal digits of `bytes`, two per byte.
pub open spec fn hex_upper(bytes: Seq<u8>) -> Seq<char>
    decreases bytes.len(),
{
    if bytes.len() == 0 {
        seq![]
    } else {
        hex_upper(bytes.drop_last()) + seq![
            digit((bytes.last() / 16) as int),
            digit((bytes.last() % 16) as int),
        ]
    }
}

/// Appends the upper-case hexadecimal digits of `bytes`.
pub fn push_hex(out: &mut Vec<char>, bytes: &[u8])
    ensures
        final(out)@ == old(out)@ + hex_upper(bytes@),
{
    let mut i: usize = 0;
    while i < bytes.len()
        invariant
            i <= bytes@.len(),
            out@ == old(out)@ + hex_upper(bytes@.take(i as int)),
        decreases bytes@.len() - i,
    {
        let b = bytes[i];
        out.push(digit_char((b / 16) as u64));
        out.push(digit_char((b % 16) as u64));
        i = i + 1;
        assert(bytes@.take(i as int).drop_last() =~= bytes@.take(i - 1));
        assert(out@ =~= old(out)@ + hex_upper(bytes@.take(i as int)));
    }
    assert(bytes@.take(i as int) =~= bytes@);
}

/// Whether the SQL string escaping puts a backslash before `c`.
pub open spec fn needs_escape(c: char) -> bool {
    c == '\\' || c == '\0' || c == '\n' || c == '\r' || c == '\'' || c == '"' || c == '\x1a'
}

/// The SQL escaping of `s`: a backslash before every backslash, NUL,
/// line feed, carriage return, single quote, double quote and `\x1a`.
pub open spec fn escape(s: Seq<char>) -> Seq<char>
    decreases s.len(),
{
    if s.len() == 0 {
        seq![]
    } else if needs_escape(s.last()) {
        escape(s.drop_last()) + seq!['\\', s.last()]
    } else {
        escape(s.drop_last()).push(s.last())
    }
}

/// Appends the SQL escaping of the characters of `s`.
pub fn push_escaped(out: &mut Vec<char>, s: &str)
    ensures
        final(out)@ == old(out)@ + escape(s@),
{
    let ghost init = out@;
    let ghost mut n: int = 0;
    for c in it: s.chars()
        invariant
            n == it.index(),
            it.seq() == s@,
            out@ == init + escape(s@.take(n as int)),
    {
        assert(s@.take(n + 1).drop_last() =~= s@.take(n as int));
        if c == '\\' || c == '\0' || c == '\n' || c == '\r' || c == '\'' || c == '"' || c == '\x1a' {
            out.push('\\');
        }
        out.push(c);
        proof {
            n = n + 1;
        }
        assert(out@ =~= init + escape(s@.take(n as int)));
    }
    assert(s@.take(n as int) =~= s@);
}


/// `std::str::from_utf8`: the bytes read as a string slice when they are
/// well-formed UTF-8 (as `vstd::utf8::valid_utf8` states it), whose
/// characters are then their decoding (`vstd::utf8::decode_utf8`); `None`
/// otherwise.
#[verifier::external_body]
pub(crate) fn str_from_utf8(bytes: &[u8]) -> (r: Option<&str>)
    ensures
        r is Some <==> valid_utf8(bytes@),
        r matches Some(s) ==> s@ == decode_utf8(bytes@),
{
    std::str::from_utf8(bytes).ok()
}

/// `String::from_iter` over the characters of `chars`: the string made of
/// exactly those characters, in order.
#[verifier::external_body]
pub(crate) fn string_from_chars(chars: &Vec<char>) -> (s: String)
    ensures
        s@ == chars@,
{
    String::from_iter(chars.iter())
}

/// `s` between single quotes.
pub open spec fn quoted(s: Seq<char>) -> Seq<char> {
    seq!['\''] + s + seq!['\'']
}

/// `YYYY-MM-DD`, each field zero-padded to its width (and wider when it
/// does not fit).
pub open spec fn date_text(y: u16, m: u8, d: u8) -> Seq<char> {
    zero_pad(dec(y as nat), 4) + seq!['-'] + zero_pad(dec(m as nat), 2) + seq!['-'] + zero_pad(
        dec(d as nat),
        2,
    )
}

/// `H:MM:SS`, the hours zero-padded to `hour_width`.
pub open spec fn clock_text(h: nat, hour_width: nat, i: u8, s: u8) -> Seq<char> {
    zero_pad(dec(h), hour_width) + seq![':'] + zero_pad(dec(i as nat), 2) + seq![':'] + zero_pad(
        dec(s as nat),
        2,
    )
}

/// `.UUUUUU`: a dot and the microseconds zero-padded to six digits.
pub open spec fn micros_text(u: u32) -> Seq<char> {
    seq!['.'] + zero_pad(dec(u as nat), 6)
}

/// Appends the characters of `date_text(y, m, d)`.
pub fn push_date(out: &mut Vec<char>, y: u16, m: u8, d: u8)
    ensures
        final(out)@ == old(out)@ + date_text(y, m, d),
{
    push_padded(out, y as u64, 4);
    out.push('-');
    push_padded(out, m as u64, 2);
    out.push('-');
    push_padded(out, d as u64, 2);
    assert(out@ =~= old(out)@ + date_text(y, m, d));
}

/// Appends the characters of `clock_text(h, hour_width, i, s)`.
pub fn push_clock(out: &mut Vec<char>, h: u64, hour_width: u64, i: u8, s: u8)
    ensures
        final(out)@ == old(out)@ + clock_text(h as nat, hour_width as nat, i, s),
{
    push_padded(out, h, hour_width);
    out.push(':');
    push_padded(out, i as u64, 2);
    out.push(':');
    push_padded(out, s as u64, 2);
    assert(out@ =~= old(out)@ + clock_text(h as nat, hour_width as nat, i, s));
}

/// Appends the characters of `micros_text(u)`.
pub fn push_micros(out: &mut Vec<char>, u: u32)
    ensures
        final(out)@ == old(out)@ + micros_text(u),
{
    out.push('.');
    push_padded(out, u as u64, 6);
    assert(out@ =~= old(out)@ + micros_text(u));
}

} // verus!
