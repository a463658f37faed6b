//! Sample packing, the three outside services of an upload session (a random
//! session identifier, a name hash and a block compressor), and the texts of
//! numbers and instants as commands spell them.

use crate::endian::{
    byte_of, le_bytes, le_signed, le_value, lemma_le_roundtrip, lemma_le_value_unfold, place,
};
use crate::error::Error;
use vstd::prelude::*;
use vstd::string::StringExecFns;

verus! {

/// The compression level that a stream starts with.
pub const DEFAULT_COMPRESSION_LEVEL: i32 = 3;

/// The seed under which stream names are hashed.
pub const HASH_SEED: u32 = 0;

/// The number of bytes a sample takes at a supported bit depth.
pub open spec fn sample_width(bit_depth: u16) -> Option<nat> {
    if bit_depth == 16 {
        Some(2nat)
    } else if bit_depth == 24 {
        Some(3nat)
    } else {
        None
    }
}

/// The samples' low `width` bytes each, little-endian, one sample after the other.
pub open spec fn packed(data: Seq<i32>, width: nat) -> Seq<u8> {
    Seq::new(
        data.len() * width,
        |j: int| byte_of(data[j / (width as int)] as int, (j % (width as int)) as nat),
    )
}

/// What packing gives: the packed bytes at a supported bit depth, nothing at any other.
pub open spec fn spec_pack(data: Seq<i32>, bit_depth: u16) -> Option<Seq<u8>> {
    match sample_width(bit_depth) {
        Some(width) => Some(packed(data, width)),
        None => None,
    }
}

/// The bytes of sample `i` within a packed block.
pub open spec fn sample_bytes(block: Seq<u8>, width: nat, i: int) -> Seq<u8> {
    block.subrange(i * width, i * width + width)
}

/// Packs 32-bit samples into fixed-width little-endian bytes: two bytes per
/// sample at bit depth 16, the low three bytes at bit depth 24. Any other bit
/// depth is unsupported and gives `None`.
pub fn pack(data: &[i32], bit_depth: u16) -> (out: Option<Vec<u8>>)
    ensures
        match spec_pack(data@, bit_depth) {
            Some(bytes) => out matches Some(v) && v@ == bytes,
            None => out is None,
        },
        out matches Some(v) ==> v@.len() == data@.len() * (bit_depth / 8),
{
    if bit_depth != 16 && bit_depth != 24 {
        return None;
    }
    let wide = bit_depth == 24;
    let ghost width: nat = if wide { 3 } else { 2 };
    let mut out: Vec<u8> = Vec::new();
    let mut i: usize = 0;
    while i < data.len()
        invariant
            i <= data.len(),
            width == (if wide { 3nat } else { 2nat }),
            out@ == packed(data@.subrange(0, i as int), width),
        decreases data.len() - i,
    {
        let x = data[i];
        let u: u32 = #[verifier::truncate] (x as u32);
        let b0: u8 = #[verifier::truncate] (u as u8);
        let b1: u8 = #[verifier::truncate] ((u >> 8) as u8);
        let b2: u8 = #[verifier::truncate] ((u >> 16) as u8);
        assert(b0 == (x as int) % 256 && b1 == ((x as int) / 0x100) % 256 && b2 == ((x as int)
            / 0x1_0000) % 256) by (bit_vector)
            requires
                u == x as u32,
                b0 == u as u8,
                b1 == (u >> 8) as u8,
                b2 == (u >> 16) as u8,
        ;
        let ghost before = out@;
        out.push(b0);
        out.push(b1);
        if wide {
            out.push(b2);
        }
        proof {
            let prev = data@.subrange(0, i as int);
            let next = data@.subrange(0, i + 1);
            assert(i * width + width == (i + 1) * width) by (nonlinear_arith);
            assert forall|j: int| 0 <= j < (i + 1) * width implies out@[j] == packed(next, width)[j] by {
                let q = j / width as int;
                let r = j % width as int;
                assert(j == q * width + r && 0 <= r < width) by (nonlinear_arith)
                    requires
                        q == j / width as int,
                        r == j % width as int,
                        width > 0,
                ;
                assert(0 <= q <= i) by (nonlinear_arith)
                    requires
                        j == q * width + r,
                        0 <= r < width,
                        0 <= j < (i + 1) * width,
                ;
                if j < i * width {
                    assert(q < i) by (nonlinear_arith)
                        requires
                            j == q * width + r,
                            0 <= r,
                            j < i * width,
                            width > 0,
                    ;
                    assert(out@[j] == before[j]);
                    assert(prev[q] == next[q]);
                } else {
                    assert(q == i) by (nonlinear_arith)
                        requires
                            j == q * width + r,
                            r < width,
                            j >= i * width,
                            q <= i,
                    ;
                    assert(next[q] == x);
                    assert(r == j - i * width);
                }
            }
            assert(out@ =~= packed(next, width));
        }
        i += 1;
    }
    proof {
        assert(data@.subrange(0, i as int) =~= data@);
    }
    Some(out)
}

/// Reading sample `i` back from a packed block gives the low 16 or 24 bits of
/// the sample that was packed.
pub proof fn lemma_pack_low_bits(data: Seq<i32>, bit_depth: u16, i: int)
    requires
        bit_depth == 16 || bit_depth == 24,
        0 <= i < data.len(),
    ensures
        spec_pack(data, bit_depth) is Some,
        le_value(sample_bytes(spec_pack(data, bit_depth).unwrap(), (bit_depth / 8) as nat, i)) == (
        data[i] as int) % place((bit_depth / 8) as nat),
{
    let width: nat = (bit_depth / 8) as nat;
    let block = packed(data, width);
    lemma_sample_bytes(data, width, i);
    lemma_le_roundtrip(data[i] as int, width);
}

/// A sample that lies within the signed range of the bit depth is read back
/// from its packed bytes exactly.
pub proof fn lemma_pack_roundtrip(data: Seq<i32>, bit_depth: u16, i: int)
    requires
        bit_depth == 16 || bit_depth == 24,
        0 <= i < data.len(),
        -place((bit_depth / 8) as nat) <= 2 * data[i] < place((bit_depth / 8) as nat),
    ensures
        le_signed(sample_bytes(spec_pack(data, bit_depth).unwrap(), (bit_depth / 8) as nat, i))
            == data[i],
{
    let width: nat = (bit_depth / 8) as nat;
    let bytes = sample_bytes(packed(data, width), width, i);
    lemma_sample_bytes(data, width, i);
    lemma_le_roundtrip(data[i] as int, width);
    lemma_le_value_unfold(bytes);
    let x = data[i] as int;
    assert(bytes.last() == byte_of(x, (width - 1) as nat));
}

/// Sample `i` occupies its own `width` bytes of the packed block.
proof fn lemma_sample_bytes(data: Seq<i32>, width: nat, i: int)
    requires
        width == 2 || width == 3,
        0 <= i < data.len(),
    ensures
        sample_bytes(packed(data, width), width, i) == le_bytes(data[i] as int, width),
{
    let block = packed(data, width);
    assert(i * width + width <= data.len() * width) by (nonlinear_arith)
        requires
            0 <= i < data.len(),
    ;
    assert(i * width >= 0) by (nonlinear_arith)
        requires
            0 <= i,
    ;
    let got = sample_bytes(block, width, i);
    assert forall|k: int| 0 <= k < width implies #[trigger] got[k] == byte_of(
        data[i] as int,
        k as nat,
    ) by {
        let j = i * width + k;
        assert(j / width as int == i && j % width as int == k) by (nonlinear_arith)
            requires
                j == i * width + k,
                0 <= k < width,
        ;
        assert(got[k] == block[j]);
    }
    assert(sample_bytes(block, width, i) =~= le_bytes(data[i] as int, width));
}

/// A fresh random identifier for one upload session, from `uuid::Uuid::new_v4`.
/// Nothing is claimed of its value: each call may give another one.
#[verifier::external_body]
pub fn session_id() -> (id: [u8; 16]) {
    *uuid::Uuid::new_v4().as_bytes()
}

/// The two 64-bit halves of the 128-bit MurmurHash3 sum of `bytes` under `seed`.
pub uninterp spec fn murmur3_x64_128(bytes: Seq<u8>, seed: u32) -> (u64, u64);

/// Calls `mur3::murmurhash3_x64_128`. The sum depends on the bytes and the
/// seed alone, which is all that the contract says of it.
#[verifier::external_body]
fn murmurhash3(bytes: &[u8], seed: u32) -> (sum: (u64, u64))
    ensures
        sum == murmur3_x64_128(bytes@, seed),
{
    mur3::murmurhash3_x64_128(bytes, seed)
}

/// The 64-bit digest of a name: the first half of its MurmurHash3 sum under seed zero.
pub open spec fn spec_hash(bytes: Seq<u8>) -> u64 {
    murmur3_x64_128(bytes, HASH_SEED).0
}

/// Hashes a name to 64 bits. The same name always gives the same digest.
pub fn hash(bytes: &[u8]) -> (digest: u64)
    ensures
        digest == spec_hash(bytes@),
{
    murmurhash3(bytes, HASH_SEED).0
}

/// The zstd frame that compressing `data` at `level` produces.
pub uninterp spec fn zstd_frame(data: Seq<u8>, level: i32) -> Seq<u8>;

/// Calls `zstd::bulk::compress`. When the compressor succeeds, its output
/// depends on the data and the level alone; when it fails, `None` comes back.
/// Whether it succeeds is left open.
#[verifier::external_body]
fn zstd_compress(data: &[u8], level: i32) -> (out: Option<Vec<u8>>)
    ensures
        out matches Some(v) ==> v@ == zstd_frame(data@, level),
{
    zstd::bulk::compress(data, level).ok()
}

/// Compresses a block at the given level.
pub fn compress(data: &[u8], level: i32) -> (out: Result<Vec<u8>, Error>)
    ensures
        match out {
            Ok(v) => v@ == zstd_frame(data@, level),
            Err(e) => e@ == crate::error::ErrorView::Compression,
        },
{
    match zstd_compress(data, level) {
        Some(v) => Ok(v),
        None => Err(Error::Compression),
    }
}

/// The RFC 3339 text of the instant `secs` seconds and `nanos` nanoseconds
/// after the Unix epoch, in UTC; nothing where no such instant can be represented.
pub uninterp spec fn rfc3339_text(secs: i64, nanos: u32) -> Option<Seq<char>>;

/// Calls `to_rfc3339` of `chrono::DateTime`. The instant it is called on is
/// made from the two numbers by `chrono::DateTime::from_timestamp`, which has
/// none for some of them. Whether there is an instant, and its text, depend on
/// the two numbers alone.
#[verifier::external_body]
pub(crate) fn rfc3339(secs: i64, nanos: u32) -> (text: Option<String>)
    ensures
        match rfc3339_text(secs, nanos) {
            Some(t) => text matches Some(s) && s@ == t,
            None => text is None,
        },
{
    match chrono::DateTime::from_timestamp(secs, nanos) {
        Some(instant) => Some(instant.to_rfc3339()),
        None => None,
    }
}

/// The decimal digit for a number below ten.
pub open spec fn digit(d: nat) -> char {
    if d == 0 {
        '0'
    } else if d == 1 {
        '1'
    } else if d == 2 {
        '2'
    } else if d == 3 {
        '3'
    } else if d == 4 {
        '4'
    } else if d == 5 {
        '5'
    } else if d == 6 {
        '6'
    } else if d == 7 {
        '7'
    } else if d == 8 {
        '8'
    } else {
        '9'
    }
}

/// The decimal numeral of `n`, without sign or leading zeros.
pub open spec fn spec_decimal(n: nat) -> Seq<char>
    decreases n,
{
    if n < 10 {
        seq![digit(n)]
    } else {
        spec_decimal(n / 10).push(digit(n % 10))
    }
}

fn digit_str(d: u64) -> (s: &'static str)
    requires
        d < 10,
    ensures
        s@ == seq![digit(d as nat)],
{
    proof {
        reveal_strlit("0");
        reveal_strlit("1");
        reveal_strlit("2");
        reveal_strlit("3");
        reveal_strlit("4");
        reveal_strlit("5");
        reveal_strlit("6");
        reveal_strlit("7");
        reveal_strlit("8");
        reveal_strlit("9");
    }
    let s = if d == 0 {
        "0"
    } else if d == 1 {
        "1"
    } else if d == 2 {
        "2"
    } else if d == 3 {
        "3"
    } else if d == 4 {
        "4"
    } else if d == 5 {
        "5"
    } else if d == 6 {
        "6"
    } else if d == 7 {
        "7"
    } else if d == 8 {
        "8"
    } else {
        "9"
    };
    assert(s@ =~= seq![digit(d as nat)]);
    s
}

/// Writes a number as a decimal numeral.
pub fn decimal(n: u64) -> (text: String)
    ensures
        text@ == spec_decimal(n as nat),
    decreases n,
{
    if n < 10 {
        String::from_str(digit_str(n))
    } else {
        let mut text = decimal(n / 10);
        text.append(digit_str(n % 10));
        assert(text@ =~= spec_decimal(n as nat));
        text
    }
}

} // verus!
