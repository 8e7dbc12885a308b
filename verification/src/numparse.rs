use vstd::prelude::*;

verus! {

/// Whether `b` is an ASCII decimal digit.
pub open spec fn is_digit(b: u8) -> bool {
    0x30 <= b <= 0x39
}

/// Whether every byte of `s` is an ASCII decimal digit.
pub open spec fn all_digits(s: Seq<u8>) -> bool {
    forall|i: int| 0 <= i < s.len() ==> is_digit(#[trigger] s[i])
}

/// The number written by the decimal digits `s`.
pub open spec fn digits_value(s: Seq<u8>) -> nat
    decreases s.len(),
{
    if s.len() == 0 {
        0
    } else {
        digits_value(s.drop_last()) * 10 + (s.last() - 0x30) as nat
    }
}

/// `10` to the power `n`.
pub open spec fn pow10(n: nat) -> int
    decreases n,
{
    if n == 0 {
        1
    } else {
        10 * pow10((n - 1) as nat)
    }
}

/// An integer in `[min, max]` written in decimal, as `str::parse` reads
/// it: an optional `+` (or `-` when `min` is negative) and at least one
/// digit, nothing else; `None` for any other text or a number outside the
/// bounds.
pub open spec fn parse_int(s: Seq<u8>, min: int, max: int) -> Option<int> {
    let signed = s.len() > 0 && (s[0] == 0x2B || (s[0] == 0x2D && min < 0));
    let neg = s.len() > 0 && s[0] == 0x2D && min < 0;
    let ds = if signed { s.drop_first() } else { s };
    if ds.len() == 0 || !all_digits(ds) {
        None
    } else {
        let v = if neg { -digits_value(ds) } else { digits_value(ds) as int };
        if min <= v <= max {
            Some(v)
        } else {
            None
        }
    }
}

/// The value of digits only grows as digits are appended.
proof fn lemma_digits_value_prefix(s: Seq<u8>, k: int)
    requires
        0 <= k <= s.len(),
        all_digits(s),
    ensures
        digits_value(s.take(k)) <= digits_value(s),
    decreases s.len() - k,
{
    if k < s.len() {
        lemma_digits_value_prefix(s, k + 1);
        assert(s.take(k + 1).drop_last() =~= s.take(k));
        assert(is_digit(s[k]));
    } else {
        assert(s.take(k) =~= s);
    }
}

/// Reads an integer in `[min, max]` from the decimal text `s`
/// (`parse_int`).
#[verifier::loop_isolation(false)]
pub fn parse_int_bytes(s: &[u8], min: i128, max: i128) -> (r: Option<i128>)
    requires
        min >= -0x1_0000_0000_0000_0000,
        max <= 0x1_0000_0000_0000_0000,
    ensures
        match parse_int(s@, min as int, max as int) {
            None => r is None,
            Some(v) => r == Some(v as i128),
        },
{
    let n = s.len();
    let signed = n > 0 && (s[0] == 0x2B || (s[0] == 0x2D && min < 0));
    let neg = n > 0 && s[0] == 0x2D && min < 0;
    let start: usize = if signed { 1 } else { 0 };
    let ghost ds = if signed { s@.drop_first() } else { s@ };
    assert(ds =~= s@.skip(start as int));
    if start == n {
        return None;
    }
    let mut acc: i128 = 0;
    let mut i: usize = start;
    while i < n
        invariant
            n == s@.len(),
            start <= i <= n,
            ds =~= s@.skip(start as int),
            all_digits(ds.take(i - start)),
            acc as int == digits_value(ds.take(i - start)),
            acc <= 0x1_0000_0000_0000_0000,
        decreases n - i,
    {
        let b = s[i];
        if b < 0x30 || b > 0x39 {
            assert(ds[i - start] == b);
            assert(!is_digit(ds[i - start]));
            assert(!all_digits(ds));
            assert(parse_int(s@, min as int, max as int) is None);
            return None;
        }
        acc = acc * 10 + (b - 0x30) as i128;
        i = i + 1;
        assert(ds.take(i - start).drop_last() =~= ds.take(i - start - 1));
        assert(all_digits(ds.take(i - start)));
        if acc > 0x1_0000_0000_0000_0000 {
            proof {
                if all_digits(ds) {
                    lemma_digits_value_prefix(ds, i - start);
                }
            }
            return None;
        }
    }
    assert(ds.take(i - start) =~= ds);
    let v: i128 = if neg { -acc } else { acc };
    if min <= v && v <= max {
        Some(v)
    } else {
        None
    }
}


/// `10^a * 10^b == 10^(a + b)`.
pub proof fn lemma_pow10_add(a: nat, b: nat)
    ensures
        pow10(a) * pow10(b) == pow10(a + b),
        pow10(a) > 0,
    decreases a,
{
    if a > 0 {
        lemma_pow10_add((a - 1) as nat, b);
        assert(pow10(a) * pow10(b) == 10 * (pow10((a - 1) as nat) * pow10(b))) by (nonlinear_arith)
            requires
                pow10(a) == 10 * pow10((a - 1) as nat),
        ;
    }
}

/// `k` decimal digits write a number below `10^k`.
pub proof fn lemma_digits_value_bound(s: Seq<u8>)
    requires
        all_digits(s),
    ensures
        digits_value(s) < pow10(s.len()),
    decreases s.len(),
{
    if s.len() > 0 {
        let t = s.drop_last();
        assert(all_digits(t)) by {
            assert forall|i: int| 0 <= i < t.len() implies is_digit(#[trigger] t[i]) by {
                assert(t[i] == s[i]);
            }
        }
        lemma_digits_value_bound(t);
        assert(is_digit(s[s.len() - 1]));
        let d = (s.last() - 0x30) as nat;
        assert(digits_value(t) * 10 + d < pow10(s.len())) by (nonlinear_arith)
            requires
                digits_value(t) < pow10(t.len()),
                d < 10,
                pow10(s.len()) == 10 * pow10(t.len()),
        ;
    }
}

/// A number read from `k` characters is below `10^k` in absolute value.
pub proof fn lemma_parse_int_bound(s: Seq<u8>, min: int, max: int)
    requires
        parse_int(s, min, max) is Some,
    ensures
        -pow10(s.len()) < parse_int(s, min, max)->0 < pow10(s.len()),
{
    let signed = s.len() > 0 && (s[0] == 0x2B || (s[0] == 0x2D && min < 0));
    let ds = if signed { s.drop_first() } else { s };
    lemma_digits_value_bound(ds);
    if signed {
        lemma_pow10_add(1, ds.len());
        reveal_with_fuel(pow10, 2);
    }
}

} // verus!
