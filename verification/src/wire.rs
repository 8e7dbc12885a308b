use vstd::prelude::*;

verus! {

/// `256` to the power `n`.
pub open spec fn pow256(n: nat) -> nat
    decreases n,
{
    if n == 0 {
        1
    } else {
        256 * pow256((n - 1) as nat)
    }
}

/// The `n` least significant bytes of `x`, least significant first.
pub open spec fn le_bytes(x: nat, n: nat) -> Seq<u8>
    decreases n,
{
    if n == 0 {
        seq![]
    } else {
        seq![(x % 256) as u8] + le_bytes(x / 256, (n - 1) as nat)
    }
}

/// The unsigned integer whose little-endian bytes are `b`.
pub open spec fn le_value(b: Seq<u8>) -> nat
    decreases b.len(),
{
    if b.len() == 0 {
        0
    } else {
        b[0] as nat + 256 * le_value(b.drop_first())
    }
}

pub proof fn lemma_pow256_values()
    ensures
        pow256(1) == 0x100,
        pow256(2) == 0x1_0000,
        pow256(3) == 0x100_0000,
        pow256(4) == 0x1_0000_0000,
        pow256(7) == 0x100_0000_0000_0000,
        pow256(8) == 0x1_0000_0000_0000_0000,
{
    reveal_with_fuel(pow256, 9);
}

/// Reading back `n` written bytes gives the value when it fits in them.
pub proof fn lemma_le_roundtrip(x: nat, n: nat)
    requires
        x < pow256(n),
    ensures
        le_bytes(x, n).len() == n,
        le_value(le_bytes(x, n)) == x,
    decreases n,
{
    if n > 0 {
        assert(x / 256 < pow256((n - 1) as nat)) by (nonlinear_arith)
            requires
                x < 256 * pow256((n - 1) as nat),
        ;
        lemma_le_roundtrip(x / 256, (n - 1) as nat);
        let b = le_bytes(x, n);
        assert(b.drop_first() =~= le_bytes(x / 256, (n - 1) as nat));
    }
}

/// Bytes read as a little-endian integer are below `256^len`.
pub proof fn lemma_le_value_bound(b: Seq<u8>)
    ensures
        le_value(b) < pow256(b.len()),
    decreases b.len(),
{
    if b.len() > 0 {
        lemma_le_value_bound(b.drop_first());
        let r = le_value(b.drop_first());
        let p = pow256(b.drop_first().len());
        assert(b[0] as nat + 256 * r < 256 * p) by (nonlinear_arith)
            requires
                r < p,
                b[0] < 256,
        ;
    }
}

/// Appends the `n` least significant bytes of `x`, least significant first.
pub fn push_le(out: &mut Vec<u8>, x: u64, n: usize)
    ensures
        final(out)@ == old(out)@ + le_bytes(x as nat, n as nat),
    decreases n,
{
    if n > 0 {
        out.push((x % 256) as u8);
        push_le(out, x / 256, n - 1);
        assert(out@ =~= old(out)@ + le_bytes(x as nat, n as nat));
    }
}

/// The little-endian integer in the `n` bytes of `s` from `pos` on.
pub fn read_le(s: &[u8], pos: usize, n: usize) -> (r: u64)
    requires
        n <= 8,
        pos + n <= s@.len(),
    ensures
        r as nat == le_value(s@.subrange(pos as int, pos + n)),
    decreases n,
{
    if n == 0 {
        0
    } else {
        let l = s.len();
        let rest = read_le(s, pos + 1, n - 1);
        proof {
            assert(s@.subrange(pos as int, pos + n).drop_first() =~= s@.subrange(
                pos + 1,
                pos + n,
            ));
            lemma_le_value_bound(s@.subrange(pos + 1, pos + n));
            lemma_pow256_values();
            lemma_pow256_mono((n - 1) as nat, 7);
            assert(256 * (rest as int) + 255 <= u64::MAX) by (nonlinear_arith)
                requires
                    rest < 0x100_0000_0000_0000,
            ;
        }
        (s[pos] as u64) + 256 * rest
    }
}

pub proof fn lemma_pow256_mono(a: nat, b: nat)
    requires
        a <= b,
    ensures
        pow256(a) <= pow256(b),
    decreases b,
{
    if a < b {
        lemma_pow256_mono(a, (b - 1) as nat);
    }
}

/// The MySQL length-encoded integer of `x`: one byte below 251, else a
/// marker byte (`0xFC`, `0xFD`, `0xFE`) and 2, 3 or 8 little-endian bytes.
pub open spec fn lenenc_int(x: nat) -> Seq<u8> {
    if x < 251 {
        seq![x as u8]
    } else if x < 0x1_0000 {
        seq![0xFCu8] + le_bytes(x, 2)
    } else if x < 0x100_0000 {
        seq![0xFDu8] + le_bytes(x, 3)
    } else {
        seq![0xFEu8] + le_bytes(x, 8)
    }
}

/// A length-encoded byte string: the length as a length-encoded integer,
/// then the bytes.
pub open spec fn lenenc_bytes(b: Seq<u8>) -> Seq<u8> {
    lenenc_int(b.len()) + b
}

/// The number of bytes that follow a length-encoded integer's first byte.
pub open spec fn lenenc_tail(first: u8) -> nat {
    if first == 0xFC {
        2
    } else if first == 0xFD {
        3
    } else if first == 0xFE {
        8
    } else {
        0
    }
}

/// Reads a length-encoded integer at the front of `s`: its value and the
/// number of bytes it takes. `None` when `s` ends too early or starts with
/// `0xFB` (the NULL marker) or `0xFF`, which start no integer.
pub open spec fn read_lenenc_int(s: Seq<u8>) -> Option<(nat, nat)> {
    if s.len() == 0 || s[0] == 0xFB || s[0] == 0xFF {
        None
    } else if s[0] < 0xFB {
        Some((s[0] as nat, 1))
    } else if s.len() < 1 + lenenc_tail(s[0]) {
        None
    } else {
        Some((le_value(s.subrange(1, 1 + lenenc_tail(s[0]) as int)), 1 + lenenc_tail(s[0])))
    }
}

/// Reads a length-encoded byte string at the front of `s`: the bytes and
/// the number of bytes taken in all.
pub open spec fn read_lenenc_bytes(s: Seq<u8>) -> Option<(Seq<u8>, nat)> {
    match read_lenenc_int(s) {
        None => None,
        Some((len, k)) => if k + len <= s.len() {
            Some((s.subrange(k as int, (k + len) as int), k + len))
        } else {
            None
        },
    }
}

/// A length-encoded integer is read back from the front of any input.
pub proof fn lemma_lenenc_int_roundtrip(x: nat, rest: Seq<u8>)
    requires
        x < pow256(8),
    ensures
        read_lenenc_int(lenenc_int(x) + rest) == Some((x, lenenc_int(x).len())),
        1 <= lenenc_int(x).len() <= 9,
{
    lemma_pow256_values();
    let s = lenenc_int(x) + rest;
    if x >= 251 {
        let n: nat = if x < 0x1_0000 { 2 } else if x < 0x100_0000 { 3 } else { 8 };
        lemma_le_roundtrip(x, n);
        assert(s.subrange(1, 1 + n as int) =~= le_bytes(x, n));
    }
}

/// A length-encoded byte string is read back from the front of any input.
pub proof fn lemma_lenenc_bytes_roundtrip(b: Seq<u8>, rest: Seq<u8>)
    requires
        b.len() < pow256(8),
    ensures
        read_lenenc_bytes(lenenc_bytes(b) + rest) == Some((b, lenenc_bytes(b).len())),
{
    let h = lenenc_int(b.len());
    lemma_lenenc_int_roundtrip(b.len(), b + rest);
    assert(lenenc_bytes(b) + rest =~= h + (b + rest));
    assert((lenenc_bytes(b) + rest).subrange(h.len() as int, (h.len() + b.len()) as int) =~= b);
}

/// Appends the length-encoded integer of `x`.
pub fn push_lenenc_int(out: &mut Vec<u8>, x: u64)
    ensures
        final(out)@ == old(out)@ + lenenc_int(x as nat),
{
    if x < 251 {
        out.push(x as u8);
    } else if x < 0x1_0000 {
        out.push(0xFC);
        push_le(out, x, 2);
    } else if x < 0x100_0000 {
        out.push(0xFD);
        push_le(out, x, 3);
    } else {
        out.push(0xFE);
        push_le(out, x, 8);
    }
    assert(out@ =~= old(out)@ + lenenc_int(x as nat));
}

/// Appends `bytes` as a length-encoded byte string.
pub fn push_lenenc_bytes(out: &mut Vec<u8>, bytes: &[u8])
    ensures
        final(out)@ == old(out)@ + lenenc_bytes(bytes@),
{
    push_lenenc_int(out, bytes.len() as u64);
    push_slice(out, bytes);
    assert(out@ =~= old(out)@ + lenenc_bytes(bytes@));
}

/// Appends the bytes of `bytes`.
pub fn push_slice(out: &mut Vec<u8>, bytes: &[u8])
    ensures
        final(out)@ == old(out)@ + bytes@,
{
    let mut i: usize = 0;
    while i < bytes.len()
        invariant
            i <= bytes@.len(),
            out@ == old(out)@ + bytes@.take(i as int),
        decreases bytes@.len() - i,
    {
        out.push(bytes[i]);
        i = i + 1;
        assert(out@ =~= old(out)@ + bytes@.take(i as int));
    }
    assert(bytes@.take(i as int) =~= bytes@);
}

/// Reads a length-encoded integer at `pos`: its value and the position
/// after it.
pub fn read_lenenc_int_at(s: &[u8], pos: usize) -> (r: Option<(u64, usize)>)
    requires
        pos <= s@.len(),
    ensures
        match read_lenenc_int(s@.skip(pos as int)) {
            None => r is None,
            Some((x, k)) => r matches Some((y, p)) && y as nat == x && p == pos + k,
        },
{
    let ghost t = s@.skip(pos as int);
    if pos == s.len() {
        return None;
    }
    let first = s[pos];
    if first == 0xFB || first == 0xFF {
        return None;
    }
    if first < 0xFB {
        return Some((first as u64, pos + 1));
    }
    let n: usize = if first == 0xFC { 2 } else if first == 0xFD { 3 } else { 8 };
    if s.len() - pos - 1 < n {
        return None;
    }
    let x = read_le(s, pos + 1, n);
    assert(t.subrange(1, 1 + n as int) =~= s@.subrange(pos + 1, pos + 1 + n));
    Some((x, pos + 1 + n))
}

/// Reads a length-encoded byte string at `pos`: the bytes and the position
/// after them.
pub fn read_lenenc_bytes_at(s: &[u8], pos: usize) -> (r: Option<(Vec<u8>, usize)>)
    requires
        pos <= s@.len(),
    ensures
        match read_lenenc_bytes(s@.skip(pos as int)) {
            None => r is None,
            Some((b, k)) => r matches Some((v, p)) && v@ == b && p == pos + k,
        },
{
    match read_lenenc_int_at(s, pos) {
        None => None,
        Some((len, p)) => {
            if len > (s.len() - p) as u64 {
                None
            } else {
                let len = len as usize;
                let mut v: Vec<u8> = Vec::new();
                let end = p + len;
                let mut i: usize = p;
                while i < end
                    invariant
                        end == p + len,
                        p <= i <= end <= s@.len(),
                        v@ == s@.subrange(p as int, i as int),
                    decreases end - i,
                {
                    v.push(s[i]);
                    i = i + 1;
                    assert(v@ =~= s@.subrange(p as int, i as int));
                }
                assert(s@.skip(pos as int).subrange((p - pos) as int, (p - pos + len) as int)
                    =~= s@.subrange(p as int, (p + len) as int));
                Some((v, p + len))
            }
        },
    }
}

} // verus!
