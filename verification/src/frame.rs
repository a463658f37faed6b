//! The frame: one packed block with the identity of its upload session, the
//! digest of its stream and its own checksum and length.

use crate::endian::{le_bytes, le_value, lemma_le_roundtrip, push_u16_le, push_u32_le, push_u64_le};
use crate::utils::{hash, session_id, spec_hash};
use vstd::prelude::*;
use vstd::string::StringSliceAdditionalSpecFns;

verus! {

/// The number of bytes that precede the block in an encoded frame.
pub const HEADER_LEN: usize = 34;

/// The flag bit that marks a compressed block.
pub const FLAG_COMPRESSED: u8 = 0x1;

/// The three bytes every frame and envelope starts with: ASCII `rsp`.
pub open spec fn chunk_tag() -> Seq<u8> {
    seq![0x72u8, 0x73u8, 0x70u8]
}

/// The CRC32C (Castagnoli) checksum of `data`.
pub uninterp spec fn crc32c_sum(data: Seq<u8>) -> u32;

/// Calls `crc32c::crc32c`. The checksum depends on the bytes alone, which is
/// all that the contract says of it.
#[verifier::external_body]
fn crc32c(data: &[u8]) -> (sum: u32)
    ensures
        sum == crc32c_sum(data@),
{
    crc32c::crc32c(data)
}

/// The flag byte of a session.
pub open spec fn spec_flags(compressed: bool) -> u8 {
    if compressed {
        FLAG_COMPRESSED
    } else {
        0
    }
}

/// The wire form of a frame: tag, session identifier, stream digest,
/// checksum, the low 16 bits of the block's length, flags, block.
pub open spec fn frame_bytes(
    session: Seq<u8>,
    digest: u64,
    flags: u8,
    checksum: u32,
    block: Seq<u8>,
) -> Seq<u8> {
    chunk_tag() + session + le_bytes(digest as int, 8) + le_bytes(checksum as int, 4) + le_bytes(
        block.len() as int,
        2,
    ) + seq![flags] + block
}

/// The checksum field of an encoded frame.
pub open spec fn checksum_field(encoded: Seq<u8>) -> Seq<u8> {
    encoded.subrange(27, 31)
}

/// The identity of one upload session: what every frame of it carries.
pub struct Frame {
    session_id: [u8; 16],
    hash: u64,
    flags: u8,
}

impl Frame {
    /// The session identifier, sixteen bytes.
    pub closed spec fn session(&self) -> Seq<u8> {
        self.session_id@
    }

    /// The digest of the stream name.
    pub closed spec fn digest(&self) -> u64 {
        self.hash
    }

    /// The flag byte.
    pub closed spec fn flag_byte(&self) -> u8 {
        self.flags
    }

    /// The wire form of `block` in this session, with its own checksum.
    pub open spec fn encoded(&self, block: Seq<u8>) -> Seq<u8> {
        frame_bytes(self.session(), self.digest(), self.flag_byte(), crc32c_sum(block), block)
    }

    /// Starts a session for the named stream: draws a fresh session
    /// identifier and hashes the name. The identifier is random; the digest
    /// and the flags are determined by the arguments.
    pub fn new(stream_id: &str, compressed: bool) -> (frame: Frame)
        ensures
            frame.session().len() == 16,
            frame.digest() == spec_hash(stream_id.spec_bytes()),
            frame.flag_byte() == spec_flags(compressed),
    {
        let id = session_id();
        let digest = hash(stream_id.as_bytes());
        Frame::from_parts(id, digest, compressed)
    }

    /// A session with the given identifier and digest.
    pub fn from_parts(session_id: [u8; 16], digest: u64, compressed: bool) -> (frame: Frame)
        ensures
            frame.session() == session_id@,
            frame.digest() == digest,
            frame.flag_byte() == spec_flags(compressed),
    {
        Frame { session_id, hash: digest, flags: if compressed { FLAG_COMPRESSED } else { 0 } }
    }

    /// The session identifier.
    pub fn session_id(&self) -> (id: [u8; 16])
        ensures
            id@ == self.session(),
    {
        self.session_id
    }

    /// The digest of the stream name.
    pub fn hash(&self) -> (digest: u64)
        ensures
            digest == self.digest(),
    {
        self.hash
    }

    /// The flag byte: bit 0 is set when blocks are compressed.
    pub fn flags(&self) -> (flags: u8)
        ensures
            flags == self.flag_byte(),
    {
        self.flags
    }

    /// Encodes one block as a frame: computes the checksum of the block as
    /// given and writes the frame with it.
    pub fn pack(&self, block: &[u8]) -> (bytes: Vec<u8>)
        ensures
            bytes@ == self.encoded(block@),
            bytes@.len() == HEADER_LEN + block@.len(),
            le_value(checksum_field(bytes@)) == crc32c_sum(block@),
    {
        self.encode(block, crc32c(block))
    }

    /// Writes the frame of a block whose checksum is known. The length field
    /// holds the low 16 bits of the block's length.
    pub fn encode(&self, block: &[u8], checksum: u32) -> (bytes: Vec<u8>)
        ensures
            bytes@ == frame_bytes(self.session(), self.digest(), self.flag_byte(), checksum, block@),
            bytes@.len() == HEADER_LEN + block@.len(),
            le_value(checksum_field(bytes@)) == checksum,
    {
        let mut bytes: Vec<u8> = Vec::new();
        bytes.push(0x72);
        bytes.push(0x73);
        bytes.push(0x70);
        assert(bytes@ =~= chunk_tag());
        let mut i: usize = 0;
        while i < 16
            invariant
                i <= 16,
                self.session_id@.len() == 16,
                bytes@ == chunk_tag() + self.session_id@.subrange(0, i as int),
            decreases 16 - i,
        {
            bytes.push(self.session_id[i]);
            assert(bytes@ =~= chunk_tag() + self.session_id@.subrange(0, i + 1));
            i += 1;
        }
        assert(self.session_id@.subrange(0, 16) =~= self.session_id@);
        push_u64_le(&mut bytes, self.hash);
        push_u32_le(&mut bytes, checksum);
        let len: u16 = (block.len() % 0x1_0000) as u16;
        push_u16_le(&mut bytes, len);
        assert(le_bytes(len as int, 2) =~= le_bytes(block@.len() as int, 2)) by {
            let n = block@.len() as int;
            assert((n % 0x1_0000) % 256 == n % 256);
            assert(((n % 0x1_0000) / 0x100) % 256 == (n / 0x100) % 256);
        }
        bytes.push(self.flags);
        let mut j: usize = 0;
        let ghost head = bytes@;
        while j < block.len()
            invariant
                j <= block.len(),
                bytes@ == head + block@.subrange(0, j as int),
            decreases block.len() - j,
        {
            bytes.push(block[j]);
            assert(bytes@ =~= head + block@.subrange(0, j + 1));
            j += 1;
        }
        proof {
            assert(block@.subrange(0, j as int) =~= block@);
            assert(bytes@ =~= frame_bytes(
                self.session(),
                self.digest(),
                self.flag_byte(),
                checksum,
                block@,
            ));
            lemma_frame_checksum(self.session(), self.hash, self.flags, checksum, block@);
        }
        bytes
    }
}

/// The checksum that a frame stores is the one it was encoded with: bytes 27
/// to 30 of the frame spell it, little-endian. For a packed block that is the
/// CRC32C computed over the block alone.
pub proof fn lemma_frame_checksum(
    session: Seq<u8>,
    digest: u64,
    flags: u8,
    checksum: u32,
    block: Seq<u8>,
)
    requires
        session.len() == 16,
    ensures
        frame_bytes(session, digest, flags, checksum, block).len() == HEADER_LEN + block.len(),
        checksum_field(frame_bytes(session, digest, flags, checksum, block)) == le_bytes(
            checksum as int,
            4,
        ),
        le_value(checksum_field(frame_bytes(session, digest, flags, checksum, block))) == checksum,
{
    let encoded = frame_bytes(session, digest, flags, checksum, block);
    assert(checksum_field(encoded) =~= le_bytes(checksum as int, 4));
    lemma_le_roundtrip(checksum as int, 4);
}

/// For all blocks, the checksum stored in the frame of a block equals the
/// CRC32C of that block.
pub proof fn lemma_stored_checksum(frame: Frame, block: Seq<u8>)
    ensures
        frame.session().len() == 16,
        frame.encoded(block).len() == HEADER_LEN + block.len(),
        le_value(checksum_field(frame.encoded(block))) == crc32c_sum(block),
{
    lemma_frame_checksum(
        frame.session(),
        frame.digest(),
        frame.flag_byte(),
        crc32c_sum(block),
        block,
    );
}

} // verus!
