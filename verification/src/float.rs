use vstd::prelude::*;

verus! {

/// `2` to the power `n`.
pub open spec fn pow2(n: nat) -> nat
    decreases n,
{
    if n == 0 {
        1
    } else {
        2 * pow2((n - 1) as nat)
    }
}

/// Doubles a nonzero subnormal significand until its bit 23 is set:
/// the significand and how many times it was doubled (added to `j`).
pub open spec fn normalize(m: nat, j: nat) -> (nat, nat)
    decreases 0x100_0000 - m,
{
    if m == 0 || m >= 0x80_0000 {
        (m, j)
    } else {
        normalize(2 * m, j + 1)
    }
}

/// The bits of the `f64` that holds the value of the `f32` with bits `b`:
/// signed zeros and infinities stay such, normal and subnormal values get
/// the same value with the wider exponent, and a NaN keeps its payload and
/// is made quiet.
pub open spec fn widen_f32_bits(b: u32) -> u64 {
    let sign: nat = (b / 0x8000_0000) as nat;
    let e: nat = ((b / 0x80_0000) % 256) as nat;
    let f: nat = (b % 0x80_0000) as nat;
    let hi: nat = sign * 0x8000_0000_0000_0000;
    let r: nat = if e == 255 {
        if f == 0 {
            hi + 0x7FF0_0000_0000_0000
        } else {
            hi + 0x7FF0_0000_0000_0000 + (if f >= 0x40_0000 { f } else { f + 0x40_0000 })
                * 0x2000_0000
        }
    } else if e == 0 {
        if f == 0 {
            hi
        } else {
            let (m, j) = normalize(f, 0);
            hi + ((897 - j) as nat) * 0x10_0000_0000_0000 + ((m - 0x80_0000) as nat) * 0x2000_0000
        }
    } else {
        hi + (e + 896) * 0x10_0000_0000_0000 + f * 0x2000_0000
    };
    r as u64
}

proof fn lemma_pow2_values()
    ensures
        pow2(23) == 0x80_0000,
{
    reveal_with_fuel(pow2, 24);
}

proof fn lemma_pow2_mono(a: nat, b: nat)
    requires
        a <= b,
    ensures
        pow2(a) <= pow2(b),
    decreases b,
{
    if a < b {
        lemma_pow2_mono(a, (b - 1) as nat);
    }
}

/// The bits of the `f64` with the value of the `f32` with bits `b`
/// (`widen_f32_bits`).
pub fn widen_f32(b: u32) -> (r: u64)
    ensures
        r == widen_f32_bits(b),
{
    let sign: u64 = (b / 0x8000_0000) as u64;
    let e: u64 = ((b / 0x80_0000) % 256) as u64;
    let f: u64 = (b % 0x80_0000) as u64;
    let hi: u64 = sign * 0x8000_0000_0000_0000;
    if e == 255 {
        if f == 0 {
            hi + 0x7FF0_0000_0000_0000
        } else {
            let q: u64 = if f >= 0x40_0000 { f } else { f + 0x40_0000 };
            hi + 0x7FF0_0000_0000_0000 + q * 0x2000_0000
        }
    } else if e == 0 {
        if f == 0 {
            hi
        } else {
            let mut m: u64 = f;
            let mut j: u64 = 0;
            while m < 0x80_0000
                invariant
                    0 < m < 0x100_0000,
                    j < 24,
                    m >= pow2(j as nat),
                    normalize(m as nat, j as nat) == normalize(f as nat, 0),
                decreases 0x100_0000 - m,
            {
                m = 2 * m;
                j = j + 1;
                proof {
                    lemma_pow2_values();
                    if j >= 24 {
                        lemma_pow2_mono(24, j as nat);
                        assert(pow2(24) == 2 * pow2(23));
                    }
                }
            }
            hi + (897 - j) * 0x10_0000_0000_0000 + (m - 0x80_0000) * 0x2000_0000
        }
    } else {
        hi + (e + 896) * 0x10_0000_0000_0000 + f * 0x2000_0000
    }
}

} // verus!
