//! Little-endian spellings of integers, as the wire formats use them.

use vstd::prelude::*;

verus! {

/// The weight of byte `k` in a little-endian number: 256 to the power `k`,
/// for the eight positions that a 64-bit word has.
pub open spec fn place(k: nat) -> int {
    if k == 0 {
        1
    } else if k == 1 {
        0x100
    } else if k == 2 {
        0x1_0000
    } else if k == 3 {
        0x100_0000
    } else if k == 4 {
        0x1_0000_0000
    } else if k == 5 {
        0x100_0000_0000
    } else if k == 6 {
        0x1_0000_0000_0000
    } else {
        0x100_0000_0000_0000
    }
}

/// Byte `k` of `x` in two's complement, counted from the least significant.
pub open spec fn byte_of(x: int, k: nat) -> u8 {
    ((x / place(k)) % 256) as u8
}

/// The `n` low-order bytes of `x`, least significant first (`n` at most 8).
pub open spec fn le_bytes(x: int, n: nat) -> Seq<u8> {
    Seq::new(n, |k: int| byte_of(x, k as nat))
}

/// The natural number that `bytes` spell, least significant byte first.
pub open spec fn le_value(bytes: Seq<u8>) -> int
    decreases bytes.len(),
{
    if bytes.len() == 0 {
        0
    } else {
        bytes[0] as int + 256 * le_value(bytes.drop_first())
    }
}

/// The two's-complement reading of an `n`-byte little-endian number.
pub open spec fn le_signed(bytes: Seq<u8>) -> int {
    let v = le_value(bytes);
    if bytes.len() > 0 && bytes.last() >= 128 {
        v - place(bytes.len())
    } else {
        v
    }
}

/// Reading back one, two, three, four or eight little-endian bytes.
pub proof fn lemma_le_value_unfold(bytes: Seq<u8>)
    ensures
        bytes.len() == 1 ==> le_value(bytes) == bytes[0] as int,
        bytes.len() == 2 ==> le_value(bytes) == bytes[0] + 0x100 * bytes[1],
        bytes.len() == 3 ==> le_value(bytes) == bytes[0] + 0x100 * bytes[1] + 0x1_0000 * bytes[2],
        bytes.len() == 4 ==> le_value(bytes) == bytes[0] + 0x100 * bytes[1] + 0x1_0000 * bytes[2]
            + 0x100_0000 * bytes[3],
        bytes.len() == 8 ==> le_value(bytes) == bytes[0] + 0x100 * bytes[1] + 0x1_0000 * bytes[2]
            + 0x100_0000 * bytes[3] + 0x1_0000_0000 * bytes[4] + 0x100_0000_0000 * bytes[5]
            + 0x1_0000_0000_0000 * bytes[6] + 0x100_0000_0000_0000 * bytes[7],
{
    reveal_with_fuel(le_value, 9);
    let t1 = bytes.drop_first();
    let t2 = t1.drop_first();
    let t3 = t2.drop_first();
    let t4 = t3.drop_first();
    let t5 = t4.drop_first();
    let t6 = t5.drop_first();
    let t7 = t6.drop_first();
    if bytes.len() >= 2 {
        assert(t1[0] == bytes[1]);
    }
    if bytes.len() >= 3 {
        assert(t2[0] == bytes[2]);
    }
    if bytes.len() >= 4 {
        assert(t3[0] == bytes[3]);
    }
    if bytes.len() == 8 {
        assert(t4[0] == bytes[4]);
        assert(t5[0] == bytes[5]);
        assert(t6[0] == bytes[6]);
        assert(t7[0] == bytes[7]);
    }
}

/// Writing the two, three or four low bytes of a number and reading them back
/// gives the number modulo 256 to that power: its low 16, 24 or 32 bits.
pub proof fn lemma_le_roundtrip(x: int, n: nat)
    requires
        n == 2 || n == 3 || n == 4,
    ensures
        le_bytes(x, n).len() == n,
        le_value(le_bytes(x, n)) == x % place(n),
{
    let b = le_bytes(x, n);
    lemma_le_value_unfold(b);
    let q1 = x / 0x100;
    let q2 = q1 / 0x100;
    let q3 = q2 / 0x100;
    assert(x / 0x1_0000 == q2);
    assert(x / 0x100_0000 == q3);
    assert(b[0] == x % 256);
    assert(b[1] == q1 % 256);
    if n >= 3 {
        assert(b[2] == q2 % 256);
    }
    if n >= 4 {
        assert(b[3] == q3 % 256);
    }
}

/// Eight little-endian bytes spell the 64-bit word they were taken from.
pub proof fn lemma_le_roundtrip_u64(x: u64)
    ensures
        le_bytes(x as int, 8).len() == 8,
        le_value(le_bytes(x as int, 8)) == x,
{
    let b = le_bytes(x as int, 8);
    lemma_le_value_unfold(b);
    let lo: u32 = (x % 0x1_0000_0000) as u32;
    let hi: u32 = (x / 0x1_0000_0000) as u32;
    lemma_le_roundtrip(lo as int, 4);
    lemma_le_roundtrip(hi as int, 4);
    lemma_le_value_unfold(le_bytes(lo as int, 4));
    lemma_le_value_unfold(le_bytes(hi as int, 4));
    lemma_split_u64(x);
    assert forall|k: int| 0 <= k < 4 implies b[k] == le_bytes(lo as int, 4)[k] && b[k + 4]
        == le_bytes(hi as int, 4)[k] by {}
}

/// The bytes of a 64-bit word are those of its two 32-bit halves.
proof fn lemma_split_u64(x: u64)
    ensures
        forall|k: nat|
            k < 4 ==> #[trigger] byte_of(x as int, k) == byte_of((x % 0x1_0000_0000) as int, k),
        forall|k: nat|
            k < 4 ==> #[trigger] byte_of((x / 0x1_0000_0000) as int, k) == byte_of(
                x as int,
                k + 4,
            ),
{
    let lo: u64 = x % 0x1_0000_0000;
    let hi: u64 = x / 0x1_0000_0000;
    assert(lo % 256 == x % 256 && (lo / 0x100) % 256 == (x / 0x100) % 256 && (lo / 0x1_0000) % 256
        == (x / 0x1_0000) % 256 && (lo / 0x100_0000) % 256 == (x / 0x100_0000) % 256 && hi % 256
        == (x / 0x1_0000_0000) % 256 && (hi / 0x100) % 256 == (x / 0x100_0000_0000) % 256 && (hi
        / 0x1_0000) % 256 == (x / 0x1_0000_0000_0000) % 256 && (hi / 0x100_0000) % 256 == (x
        / 0x100_0000_0000_0000) % 256) by (bit_vector)
        requires
            lo == x % 0x1_0000_0000,
            hi == x / 0x1_0000_0000,
    ;
}

/// Appends the two little-endian bytes of `x`.
pub fn push_u16_le(out: &mut Vec<u8>, x: u16)
    ensures
        final(out)@ == old(out)@ + le_bytes(x as int, 2),
{
    let b0: u8 = #[verifier::truncate] (x as u8);
    let b1: u8 = #[verifier::truncate] ((x >> 8) as u8);
    assert(b0 == (x as int) % 256 && b1 == ((x as int) / 0x100) % 256) by (bit_vector)
        requires
            b0 == x as u8,
            b1 == (x >> 8) as u8,
    ;
    out.push(b0);
    out.push(b1);
    assert(out@ =~= old(out)@ + le_bytes(x as int, 2));
}

/// Appends the four little-endian bytes of `x`.
pub fn push_u32_le(out: &mut Vec<u8>, x: u32)
    ensures
        final(out)@ == old(out)@ + le_bytes(x as int, 4),
{
    let b0: u8 = #[verifier::truncate] (x as u8);
    let b1: u8 = #[verifier::truncate] ((x >> 8) as u8);
    let b2: u8 = #[verifier::truncate] ((x >> 16) as u8);
    let b3: u8 = #[verifier::truncate] ((x >> 24) as u8);
    assert(b0 == (x as int) % 256 && b1 == ((x as int) / 0x100) % 256 && b2 == ((x as int)
        / 0x1_0000) % 256 && b3 == ((x as int) / 0x100_0000) % 256) by (bit_vector)
        requires
            b0 == x as u8,
            b1 == (x >> 8) as u8,
            b2 == (x >> 16) as u8,
            b3 == (x >> 24) as u8,
    ;
    out.push(b0);
    out.push(b1);
    out.push(b2);
    out.push(b3);
    assert(out@ =~= old(out)@ + le_bytes(x as int, 4));
}

/// Appends the eight little-endian bytes of `x`.
pub fn push_u64_le(out: &mut Vec<u8>, x: u64)
    ensures
        final(out)@ == old(out)@ + le_bytes(x as int, 8),
{
    let lo: u32 = (x % 0x1_0000_0000) as u32;
    let hi: u32 = (x / 0x1_0000_0000) as u32;
    let ghost before = out@;
    push_u32_le(out, lo);
    push_u32_le(out, hi);
    proof {
        lemma_split_u64(x);
        assert(out@ =~= before + le_bytes(x as int, 8));
    }
}

/// The number that two little-endian bytes spell.
pub fn u16_from_le(b0: u8, b1: u8) -> (x: u16)
    ensures
        x == le_value(seq![b0, b1]),
{
    proof {
        lemma_le_value_unfold(seq![b0, b1]);
    }
    b0 as u16 + 0x100 * (b1 as u16)
}

/// The number that four little-endian bytes spell.
pub fn u32_from_le(b0: u8, b1: u8, b2: u8, b3: u8) -> (x: u32)
    ensures
        x == le_value(seq![b0, b1, b2, b3]),
{
    proof {
        lemma_le_value_unfold(seq![b0, b1, b2, b3]);
    }
    b0 as u32 + 0x100 * (b1 as u32) + 0x1_0000 * (b2 as u32) + 0x100_0000 * (b3 as u32)
}

/// The number that eight little-endian bytes spell.
pub fn u64_from_le(bytes: &[u8; 8]) -> (x: u64)
    ensures
        x == le_value(bytes@),
{
    proof {
        lemma_le_value_unfold(bytes@);
        lemma_le_value_unfold(seq![bytes[0], bytes[1], bytes[2], bytes[3]]);
        lemma_le_value_unfold(seq![bytes[4], bytes[5], bytes[6], bytes[7]]);
    }
    let lo = u32_from_le(bytes[0], bytes[1], bytes[2], bytes[3]);
    let hi = u32_from_le(bytes[4], bytes[5], bytes[6], bytes[7]);
    lo as u64 + 0x1_0000_0000 * (hi as u64)
}

} // verus!
