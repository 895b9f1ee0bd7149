use vstd::prelude::*;

verus! {

/// Largest value a variable-length integer can carry (62 bits).
pub const VARINT_MAX: u64 = 0x3fff_ffff_ffff_ffff;

/// The byte of `x` that starts `shift` bits from its least significant end.
pub open spec fn byte_at(x: u64, shift: u64) -> u8 {
    ((x >> shift) & 0xff) as u8
}

/// Number of bytes of the shortest encoding of `v`.
pub open spec fn varint_len(v: u64) -> nat {
    if v < 0x40 {
        1
    } else if v < 0x4000 {
        2
    } else if v < 0x4000_0000 {
        4
    } else {
        8
    }
}

/// The shortest encoding of `v`: big-endian, with the two top bits of the
/// first byte giving the length (00 = 1, 01 = 2, 10 = 4, 11 = 8 bytes).
pub open spec fn varint_bytes(v: u64) -> Seq<u8> {
    if v < 0x40 {
        seq![v as u8]
    } else if v < 0x4000 {
        let x = v | 0x4000;
        seq![byte_at(x, 8u64), byte_at(x, 0u64)]
    } else if v < 0x4000_0000 {
        let x = v | 0x8000_0000;
        seq![byte_at(x, 24u64), byte_at(x, 16u64), byte_at(x, 8u64), byte_at(x, 0u64)]
    } else {
        let x = v | 0xc000_0000_0000_0000;
        seq![
            byte_at(x, 56u64),
            byte_at(x, 48u64),
            byte_at(x, 40u64),
            byte_at(x, 32u64),
            byte_at(x, 24u64),
            byte_at(x, 16u64),
            byte_at(x, 8u64),
            byte_at(x, 0u64),
        ]
    }
}

/// Length of an encoding, read from the two top bits of its first byte.
pub open spec fn varint_size(b0: u8) -> nat {
    if b0 >> 6u8 == 0 {
        1
    } else if b0 >> 6u8 == 1 {
        2
    } else if b0 >> 6u8 == 2 {
        4
    } else {
        8
    }
}

/// Big-endian value of a byte sequence of at most eight bytes.
pub open spec fn be_value(s: Seq<u8>) -> u64
    decreases s.len(),
{
    if s.len() == 0 {
        0
    } else {
        (be_value(s.drop_last()) << 8u64) | (s.last() as u64)
    }
}

/// What a decoder reads at the start of `s`: the value and the number of
/// bytes it takes, or `None` when `s` ends inside the encoding.
pub open spec fn varint_decode(s: Seq<u8>) -> Option<(u64, nat)> {
    if s.len() == 0 {
        None
    } else {
        let n = varint_size(s[0]);
        if s.len() < n {
            None
        } else {
            Some((be_value(s.take(n as int).update(0, s[0] & 0x3f)), n))
        }
    }
}

/// Big-endian two-byte encoding of `v`.
pub open spec fn u16_bytes(v: u16) -> Seq<u8> {
    seq![(v >> 8u16) as u8, (v & 0xff) as u8]
}

/// Value of two big-endian bytes.
pub open spec fn u16_value(hi: u8, lo: u8) -> u16 {
    ((hi as u16) << 8u16) | (lo as u16)
}

pub proof fn lemma_u16_round_trip(v: u16)
    ensures
        u16_value(u16_bytes(v)[0], u16_bytes(v)[1]) == v,
{
    assert((((((v >> 8u16) as u8) as u16) << 8u16) | (((v & 0xff) as u8) as u16)) == v)
        by (bit_vector);
}

/// Appends the two-byte big-endian encoding of `v`.
pub fn encode_u16(out: &mut Vec<u8>, v: u16)
    ensures
        final(out)@ == old(out)@ + u16_bytes(v),
{
    out.push((v >> 8) as u8);
    out.push((v & 0xff) as u8);
    assert(final(out)@ =~= old(out)@ + u16_bytes(v));
}


/// Appends the shortest encoding of `v`.
pub fn encode_varint(out: &mut Vec<u8>, v: u64)
    requires
        v <= VARINT_MAX,
    ensures
        final(out)@ == old(out)@ + varint_bytes(v),
{
    if v < 0x40 {
        out.push(v as u8);
    } else if v < 0x4000 {
        let x = v | 0x4000;
        out.push(((x >> 8) & 0xff) as u8);
        out.push((x & 0xff) as u8);
        assert(x >> 0u64 == x) by (bit_vector);
    } else if v < 0x4000_0000 {
        let x = v | 0x8000_0000;
        out.push(((x >> 24) & 0xff) as u8);
        out.push(((x >> 16) & 0xff) as u8);
        out.push(((x >> 8) & 0xff) as u8);
        out.push((x & 0xff) as u8);
        assert(x >> 0u64 == x) by (bit_vector);
    } else {
        let x = v | 0xc000_0000_0000_0000;
        out.push(((x >> 56) & 0xff) as u8);
        out.push(((x >> 48) & 0xff) as u8);
        out.push(((x >> 40) & 0xff) as u8);
        out.push(((x >> 32) & 0xff) as u8);
        out.push(((x >> 24) & 0xff) as u8);
        out.push(((x >> 16) & 0xff) as u8);
        out.push(((x >> 8) & 0xff) as u8);
        out.push((x & 0xff) as u8);
        assert(x >> 0u64 == x) by (bit_vector);
    }
    assert(final(out)@ =~= old(out)@ + varint_bytes(v));
}

/// Number of bytes that `encode_varint` writes for `v`.
pub fn varint_length(v: u64) -> (r: usize)
    ensures
        r == varint_len(v),
        r == varint_bytes(v).len(),
{
    if v < 0x40 {
        1
    } else if v < 0x4000 {
        2
    } else if v < 0x4000_0000 {
        4
    } else {
        8
    }
}

proof fn lemma_be_value_step(t: Seq<u8>, i: int)
    requires
        0 <= i < t.len(),
    ensures
        be_value(t.take(i + 1)) == (be_value(t.take(i)) << 8u64) | (t[i] as u64),
{
    assert(t.take(i + 1).drop_last() =~= t.take(i));
}

/// Reads a variable-length integer that starts at `buf[pos]`.
pub fn decode_varint(buf: &[u8], pos: usize) -> (r: Option<(u64, usize)>)
    requires
        pos <= buf@.len(),
    ensures
        match varint_decode(buf@.subrange(pos as int, buf@.len() as int)) {
            None => r is None,
            Some((v, n)) => r == Some((v, n as usize)) && v <= VARINT_MAX,
        },
{
    let ghost s = buf@.subrange(pos as int, buf@.len() as int);
    if pos >= buf.len() {
        return None;
    }
    let b0 = buf[pos];
    let top = b0 >> 6;
    let n: usize = if top == 0 {
        1
    } else if top == 1 {
        2
    } else if top == 2 {
        4
    } else {
        8
    };
    assert(n == varint_size(s[0]));
    if buf.len() - pos < n {
        return None;
    }
    let ghost t = s.take(n as int).update(0, s[0] & 0x3f);
    let mut v: u64 = (b0 & 0x3f) as u64;
    proof {
        assert(t.take(1).drop_last() =~= t.take(0));
        assert(be_value(t.take(0)) == 0);
        assert((0u64 << 8u64) | ((b0 & 0x3f) as u64) == (b0 & 0x3f) as u64) by (bit_vector);
        assert(((b0 & 0x3f) as u64) >> 6u64 == 0) by (bit_vector);
    }
    let mut i: usize = 1;
    while i < n
        invariant
            1 <= i <= n,
            n <= 8,
            pos + n <= buf@.len(),
            t.len() == n,
            forall|j: int| 1 <= j < n ==> t[j] == buf@[pos + j],
            v == be_value(t.take(i as int)),
            buf@.len() <= usize::MAX,
            v >> ((8 * i - 2) as u64) == 0,
        decreases n - i,
    {
        proof {
            lemma_be_value_step(t, i as int);
        }
        let b = buf[pos + i] as u64;
        let ghost k = (8 * i - 2) as u64;
        assert(((v << 8u64) | b) >> (k + 8) == 0) by (bit_vector)
            requires v >> k == 0, b < 256, k <= 54;
        v = (v << 8) | b;
        i = i + 1;
    }
    let ghost k = (8 * n - 2) as u64;
    assert(v <= VARINT_MAX) by (bit_vector)
        requires v >> k == 0, k <= 62;
    assert(t.take(n as int) =~= t);
    Some((v, n))
}

proof fn lemma_byte_at(x: u64, shift: u64)
    ensures
        byte_at(x, shift) as u64 == (x >> shift) & 0xff,
{
    assert((x >> shift) & 0xff < 256) by (bit_vector);
}

proof fn lemma_first_byte(b: u8, y: u64)
    requires
        b == (y & 0xff) as u8,
    ensures
        (b & 0x3f) as u64 == y & 0xff & 0x3f,
        b >> 6u8 == ((y & 0xff) >> 6u64) as u8,
{
    assert(b == (y & 0xff) as u8 ==> (b & 0x3f) as u64 == y & 0xff & 0x3f) by (bit_vector);
    assert(b == (y & 0xff) as u8 ==> b >> 6u8 == ((y & 0xff) >> 6u64) as u8) by (bit_vector);
}

/// Decoding the shortest encoding of `v`, whatever follows it, gives back
/// `v` and the length of the encoding.
pub proof fn lemma_varint_round_trip(v: u64, rest: Seq<u8>)
    requires
        v <= VARINT_MAX,
    ensures
        varint_decode(varint_bytes(v) + rest) == Some((v, varint_len(v))),
{
    let e = varint_bytes(v);
    let s = e + rest;
    let n = varint_len(v);
    assert(s.take(n as int) =~= e);
    let t = e.update(0, e[0] & 0x3f);
    assert(s.take(n as int).update(0, s[0] & 0x3f) == t);
    assert(t.take(n as int) =~= t);
    assert(be_value(t.take(0)) == 0);
    if v < 0x40 {
        assert(v & 0xff == v) by (bit_vector)
            requires v < 0x40;
        lemma_first_byte(e[0], v);
        assert(v & 0xff == v && (v & 0xff) >> 6u64 == 0 && v & 0xff & 0x3f == v
            && (0u64 << 8u64) | v == v) by (bit_vector)
            requires v < 0x40;
        lemma_be_value_step(t, 0);
    } else if v < 0x4000 {
        let x = v | 0x4000;
        lemma_first_byte(e[0], x >> 8u64);
        lemma_byte_at(x, 0);
        lemma_be_value_step(t, 0);
        lemma_be_value_step(t, 1);
        assert(((x >> 8u64) & 0xff) >> 6u64 == 1
            && (((0u64 << 8u64) | ((x >> 8u64) & 0xff & 0x3f)) << 8u64) | ((x >> 0u64) & 0xff) == v)
            by (bit_vector)
            requires x == v | 0x4000, 0x40 <= v < 0x4000;
    } else if v < 0x4000_0000 {
        let x = v | 0x8000_0000;
        lemma_first_byte(e[0], x >> 24u64);
        lemma_byte_at(x, 16);
        lemma_byte_at(x, 8);
        lemma_byte_at(x, 0);
        lemma_be_value_step(t, 0);
        lemma_be_value_step(t, 1);
        lemma_be_value_step(t, 2);
        lemma_be_value_step(t, 3);
        assert(((x >> 24u64) & 0xff) >> 6u64 == 2
            && (((((((0u64 << 8u64) | ((x >> 24u64) & 0xff & 0x3f)) << 8u64)
                | ((x >> 16u64) & 0xff)) << 8u64) | ((x >> 8u64) & 0xff)) << 8u64)
                | ((x >> 0u64) & 0xff) == v)
            by (bit_vector)
            requires x == v | 0x8000_0000, 0x4000 <= v < 0x4000_0000;
    } else {
        let x = v | 0xc000_0000_0000_0000;
        lemma_first_byte(e[0], x >> 56u64);
        lemma_byte_at(x, 48);
        lemma_byte_at(x, 40);
        lemma_byte_at(x, 32);
        lemma_byte_at(x, 24);
        lemma_byte_at(x, 16);
        lemma_byte_at(x, 8);
        lemma_byte_at(x, 0);
        lemma_be_value_step(t, 0);
        lemma_be_value_step(t, 1);
        lemma_be_value_step(t, 2);
        lemma_be_value_step(t, 3);
        lemma_be_value_step(t, 4);
        lemma_be_value_step(t, 5);
        lemma_be_value_step(t, 6);
        lemma_be_value_step(t, 7);
        assert(((x >> 56u64) & 0xff) >> 6u64 == 3
            && (((((((((((((((0u64 << 8u64) | ((x >> 56u64) & 0xff & 0x3f)) << 8u64)
                | ((x >> 48u64) & 0xff)) << 8u64) | ((x >> 40u64) & 0xff)) << 8u64)
                | ((x >> 32u64) & 0xff)) << 8u64) | ((x >> 24u64) & 0xff)) << 8u64)
                | ((x >> 16u64) & 0xff)) << 8u64) | ((x >> 8u64) & 0xff)) << 8u64)
                | ((x >> 0u64) & 0xff) == v)
            by (bit_vector)
            requires x == v | 0xc000_0000_0000_0000, 0x4000_0000 <= v <= 0x3fff_ffff_ffff_ffff;
    }
}

} // verus!
