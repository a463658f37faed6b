//! The bulk upload of samples to a stream: chunking, packing, framing,
//! batching into envelopes, and the protocol that brackets the batches.
//!
//! An upload is a state machine. It does no input or output: each step takes
//! the decoded reply to what the previous step asked for and says what to do
//! next. Its caller executes the commands and sends the envelopes.

use crate::error::{Error, ErrorView};
use crate::frame::{chunk_tag, crc32c_sum, frame_bytes, spec_flags, Frame};
use crate::pack::{outcome, Types, Value};
use crate::pipeline::{close_command, meta_command, open_command, quoted, quoted_pair};
use crate::utils::{
    compress, pack, packed, sample_width, spec_hash, zstd_frame, DEFAULT_COMPRESSION_LEVEL,
};
use vstd::prelude::*;
use vstd::slice::slice_subrange;
use vstd::string::StringExecFns;
use vstd::utf8::encode_utf8;

verus! {

/// The bytes of an array header that announces `len` elements.
pub uninterp spec fn array_header_bytes(len: u32) -> Seq<u8>;

/// The bytes of a binary blob: its header and the data.
pub uninterp spec fn bin_bytes(data: Seq<u8>) -> Seq<u8>;

/// Calls `rmp::encode::write_array_len` on the vector. The bytes it appends
/// depend on the length alone; writing to a vector does not fail.
#[verifier::external_body]
fn write_array_len(out: &mut Vec<u8>, len: u32)
    ensures
        final(out)@ == old(out)@ + array_header_bytes(len),
{
    let _ = rmp::encode::write_array_len(out, len);
}

/// Calls `rmp::encode::write_bin` on the vector. The bytes it appends depend
/// on the data alone; writing to a vector does not fail.
#[verifier::external_body]
fn write_bin(out: &mut Vec<u8>, data: &[u8])
    ensures
        final(out)@ == old(out)@ + bin_bytes(data@),
{
    let _ = rmp::encode::write_bin(out, data);
}

/// The frames of an envelope, each as a blob, one after the other.
pub open spec fn blobs(frames: Seq<Seq<u8>>) -> Seq<u8>
    decreases frames.len(),
{
    if frames.len() == 0 {
        Seq::empty()
    } else {
        blobs(frames.drop_last()) + bin_bytes(frames.last())
    }
}

/// The wire form of an envelope: the tag, an array header with the number of
/// frames, and the frames as blobs.
pub open spec fn spec_envelope(frames: Seq<Seq<u8>>) -> Seq<u8> {
    chunk_tag() + array_header_bytes(frames.len() as u32) + blobs(frames)
}

/// The contents of a vector of byte vectors.
pub open spec fn contents(frames: Seq<Vec<u8>>) -> Seq<Seq<u8>> {
    Seq::new(frames.len(), |i: int| frames[i]@)
}

/// Serializes encoded frames into one envelope.
pub fn envelope(frames: &Vec<Vec<u8>>) -> (bytes: Vec<u8>)
    requires
        frames@.len() <= u32::MAX,
    ensures
        bytes@ == spec_envelope(contents(frames@)),
{
    let mut bytes: Vec<u8> = Vec::new();
    bytes.push(0x72);
    bytes.push(0x73);
    bytes.push(0x70);
    assert(bytes@ =~= chunk_tag());
    write_array_len(&mut bytes, frames.len() as u32);
    let ghost head = bytes@;
    let mut i: usize = 0;
    while i < frames.len()
        invariant
            i <= frames@.len(),
            bytes@ == head + blobs(contents(frames@).subrange(0, i as int)),
        decreases frames@.len() - i,
    {
        write_bin(&mut bytes, frames[i].as_slice());
        proof {
            let done = contents(frames@).subrange(0, i + 1);
            assert(done.drop_last() =~= contents(frames@).subrange(0, i as int));
            assert(done.last() == frames@[i as int]@);
            assert(bytes@ =~= head + blobs(done));
        }
        i += 1;
    }
    assert(contents(frames@).subrange(0, i as int) =~= contents(frames@));
    bytes
}

/// The samples from `from` on in consecutive groups of `per_frame`, at most
/// `limit` groups; only the group that reaches the end of the data may be shorter.
pub open spec fn chunks(data: Seq<i32>, from: nat, per_frame: nat, limit: nat) -> Seq<Seq<i32>>
    decreases limit,
{
    if limit == 0 || from >= data.len() || per_frame == 0 {
        Seq::empty()
    } else {
        let end = if from + per_frame < data.len() {
            from + per_frame
        } else {
            data.len()
        };
        seq![data.subrange(from as int, end as int)] + chunks(
            data,
            end,
            per_frame,
            (limit - 1) as nat,
        )
    }
}

/// Where the data goes on after the groups that [`chunks`] gives.
pub open spec fn chunks_end(len: nat, from: nat, per_frame: nat, limit: nat) -> nat
    decreases limit,
{
    if limit == 0 || from >= len || per_frame == 0 {
        from
    } else {
        let end = if from + per_frame < len {
            from + per_frame
        } else {
            len
        };
        chunks_end(len, end, per_frame, (limit - 1) as nat)
    }
}

/// The bit depth that an upload keeps of a reply: the reply itself where it
/// is 16 or 24, and zero, which no stream has, for every other integer.
pub open spec fn supported_depth(reply: i64) -> u16 {
    if reply == 16 {
        16
    } else if reply == 24 {
        24
    } else {
        0
    }
}

/// The configuration of an upload.
#[derive(Debug)]
pub struct Stream {
    pub stream_id: String,
    pub chunk_size: u16,
    pub batch_size: u32,
    pub compression: bool,
    pub compression_level: i32,
}

/// Where an upload stands.
#[derive(Clone, Copy, Debug, PartialEq, Eq, Structural)]
pub enum Phase {
    /// The bit depth has been asked for.
    Meta,
    /// The stream is being opened.
    Open,
    /// An envelope is under way.
    Batches,
    /// All envelopes are acknowledged and the stream is being closed.
    Close,
    /// The stream is closed: the upload is complete.
    Completed,
    /// The upload was abandoned at its first error.
    Failed,
}

/// What the caller of an upload is to do next.
#[derive(Debug, PartialEq, Eq)]
pub enum Action {
    /// Execute this command text and come back with its reply.
    Execute(String),
    /// Send this envelope as one request and come back with its reply.
    Send(Vec<u8>),
    /// Nothing: the upload is complete.
    Done,
    /// Nothing: the upload has failed with this error.
    Fail(Error),
}

/// An [`Action`] with its text and bytes as sequences.
pub ghost enum ActionView {
    Execute(Seq<char>),
    Send(Seq<u8>),
    Done,
    Fail(ErrorView),
}

impl View for Action {
    type V = ActionView;

    open spec fn view(&self) -> ActionView {
        match self {
            Action::Execute(text) => ActionView::Execute(text@),
            Action::Send(bytes) => ActionView::Send(bytes@),
            Action::Done => ActionView::Done,
            Action::Fail(e) => ActionView::Fail(e@),
        }
    }
}

/// The state of an upload.
pub ghost struct UploadView {
    pub stream_id: Seq<char>,
    pub chunk_size: u16,
    pub batch_size: u32,
    pub compression: bool,
    pub compression_level: i32,
    pub data: Seq<i32>,
    pub session: Seq<u8>,
    pub digest: u64,
    pub phase: Phase,
    pub bit_depth: u16,
    pub position: nat,
}

impl UploadView {
    /// The most frames that one envelope takes: the batch size, or with a
    /// batch size of zero as many as an array header can announce.
    pub open spec fn limit(self) -> nat {
        if self.batch_size == 0 {
            u32::MAX as nat
        } else {
            self.batch_size as nat
        }
    }

    /// The number of samples in a full frame: the chunk size in bytes
    /// divided by the bytes of one sample.
    pub open spec fn per_frame(self, width: nat) -> nat {
        (self.chunk_size as nat) / width
    }

    /// The block of one group of samples: packed, and compressed where the upload compresses.
    pub open spec fn block(self, width: nat, chunk: Seq<i32>) -> Seq<u8> {
        if self.compression {
            zstd_frame(packed(chunk, width), self.compression_level)
        } else {
            packed(chunk, width)
        }
    }

    /// The encoded frame of one group of samples.
    pub open spec fn frame(self, width: nat, chunk: Seq<i32>) -> Seq<u8> {
        frame_bytes(
            self.session,
            self.digest,
            spec_flags(self.compression),
            crc32c_sum(self.block(width, chunk)),
            self.block(width, chunk),
        )
    }

    /// The encoded frames of the groups of samples.
    pub open spec fn frames(self, width: nat, groups: Seq<Seq<i32>>) -> Seq<Seq<u8>> {
        Seq::new(groups.len(), |i: int| self.frame(width, groups[i]))
    }

    /// The groups of samples that the next envelope carries.
    pub open spec fn batch(self, width: nat) -> Seq<Seq<i32>> {
        chunks(self.data, self.position, self.per_frame(width), self.limit())
    }

    /// The next envelope.
    pub open spec fn next_envelope(self, width: nat) -> Seq<u8> {
        spec_envelope(self.frames(width, self.batch(width)))
    }

    /// The position after the next envelope.
    pub open spec fn next_position(self, width: nat) -> nat {
        chunks_end(self.data.len(), self.position, self.per_frame(width), self.limit())
    }

    /// This upload in another phase.
    pub open spec fn at(self, phase: Phase) -> UploadView {
        UploadView { phase, ..self }
    }

    /// What follows an acknowledged OPEN or envelope: the next envelope while
    /// samples are left, then CLOSE. An unsupported bit depth, or a chunk
    /// size that holds no sample, ends the upload instead.
    pub open spec fn proceed(self) -> (UploadView, ActionView) {
        match sample_width(self.bit_depth) {
            None => (self.at(Phase::Failed), ActionView::Fail(ErrorView::UnsupportedBitDepth)),
            Some(width) => if self.per_frame(width) == 0 {
                (self.at(Phase::Failed), ActionView::Fail(ErrorView::ChunkTooSmall))
            } else if self.position >= self.data.len() {
                (self.at(Phase::Close), ActionView::Execute(quoted("CLOSE"@, self.stream_id)))
            } else {
                (
                    UploadView {
                        phase: Phase::Batches,
                        position: self.next_position(width),
                        ..self
                    },
                    ActionView::Send(self.next_envelope(width)),
                )
            },
        }
    }

    /// One step of the upload on the reply to its last action, where no
    /// compression fails. The first error ends the upload: no step after it
    /// sends anything, CLOSE included.
    pub open spec fn step(self, reply: Result<Value, ErrorView>) -> (UploadView, ActionView) {
        match self.phase {
            Phase::Completed => (self, ActionView::Done),
            Phase::Failed => (self, ActionView::Fail(ErrorView::Finished)),
            _ => match reply {
                Err(e) => (self.at(Phase::Failed), ActionView::Fail(e)),
                Ok(value) => match self.phase {
                    Phase::Meta => match value {
                        Value::Int(depth) => (
                            UploadView {
                                phase: Phase::Open,
                                bit_depth: supported_depth(depth),
                                ..self
                            },
                            ActionView::Execute(quoted("OPEN"@, self.stream_id)),
                        ),
                        _ => (self.at(Phase::Failed), ActionView::Fail(ErrorView::InvalidBitDepth)),
                    },
                    Phase::Close => (self.at(Phase::Completed), ActionView::Done),
                    _ => self.proceed(),
                },
            },
        }
    }
}

/// One upload under way: its configuration, the samples, the identity of the
/// session and how far it has come.
pub struct Upload<'a> {
    stream_id: String,
    chunk_size: u16,
    batch_size: u32,
    compression: bool,
    compression_level: i32,
    data: &'a [i32],
    frame: Frame,
    phase: Phase,
    bit_depth: u16,
    position: usize,
}

impl<'a> View for Upload<'a> {
    type V = UploadView;

    closed spec fn view(&self) -> UploadView {
        UploadView {
            stream_id: self.stream_id@,
            chunk_size: self.chunk_size,
            batch_size: self.batch_size,
            compression: self.compression,
            compression_level: self.compression_level,
            data: self.data@,
            session: self.frame.session(),
            digest: self.frame.digest(),
            phase: self.phase,
            bit_depth: self.bit_depth,
            position: self.position as nat,
        }
    }
}

impl Stream {
    /// The configuration for uploads to the named stream, without compression.
    pub fn new(stream_id: &str, chunk_size: u16, batch_size: u32) -> (stream: Stream)
        ensures
            stream.stream_id@ == stream_id@,
            stream.chunk_size == chunk_size,
            stream.batch_size == batch_size,
            !stream.compression,
            stream.compression_level == DEFAULT_COMPRESSION_LEVEL,
    {
        Stream {
            stream_id: String::from_str(stream_id),
            chunk_size,
            batch_size,
            compression: false,
            compression_level: DEFAULT_COMPRESSION_LEVEL,
        }
    }

    /// Sets the name of the stream.
    pub fn stream_id(&mut self, stream_id: &str) -> (r: &mut Self)
        ensures
            r.stream_id@ == stream_id@,
            r.chunk_size == old(self).chunk_size,
            r.batch_size == old(self).batch_size,
            r.compression == old(self).compression,
            r.compression_level == old(self).compression_level,
            *final(self) == *final(r),
    {
        self.stream_id = String::from_str(stream_id);
        self
    }

    /// Sets the size of a chunk in bytes: how much of the packed samples one frame carries.
    pub fn chunk_size(&mut self, chunk_size: u16) -> (r: &mut Self)
        ensures
            *r == (Stream { chunk_size, ..*old(self) }),
            *final(self) == *final(r),
    {
        self.chunk_size = chunk_size;
        self
    }

    /// Sets the number of frames in an envelope; zero puts all frames in one.
    pub fn batch_size(&mut self, batch_size: u32) -> (r: &mut Self)
        ensures
            *r == (Stream { batch_size, ..*old(self) }),
            *final(self) == *final(r),
    {
        self.batch_size = batch_size;
        self
    }

    /// Sets whether blocks are compressed.
    pub fn compression(&mut self, compression: bool) -> (r: &mut Self)
        ensures
            *r == (Stream { compression, ..*old(self) }),
            *final(self) == *final(r),
    {
        self.compression = compression;
        self
    }

    /// Sets the level at which blocks are compressed.
    pub fn compression_level(&mut self, compression_level: i32) -> (r: &mut Self)
        ensures
            *r == (Stream { compression_level, ..*old(self) }),
            *final(self) == *final(r),
    {
        self.compression_level = compression_level;
        self
    }

    /// The state in which an upload of `data` under this configuration starts.
    pub open spec fn starts(&self, data: Seq<i32>, upload: UploadView) -> bool {
        upload == (UploadView {
            stream_id: self.stream_id@,
            chunk_size: self.chunk_size,
            batch_size: self.batch_size,
            compression: self.compression,
            compression_level: self.compression_level,
            data,
            session: upload.session,
            digest: spec_hash(encode_utf8(self.stream_id@)),
            phase: Phase::Meta,
            bit_depth: 0,
            position: 0,
        })
    }

    /// Starts an upload of `data`: opens a session with a fresh identifier
    /// and asks for the stream's bit depth. Nothing is transmitted before the
    /// bit depth is known.
    pub fn execute<'a>(&self, data: &'a [i32]) -> (r: (Upload<'a>, Action))
        ensures
            self.starts(data@, r.0@),
            r.0@.session.len() == 16,
            r.1@ == ActionView::Execute(quoted_pair("META"@, self.stream_id@, "bit_depth"@)),
    {
        let frame = Frame::new(self.stream_id.as_str(), self.compression);
        let upload = Upload {
            stream_id: self.stream_id.clone(),
            chunk_size: self.chunk_size,
            batch_size: self.batch_size,
            compression: self.compression,
            compression_level: self.compression_level,
            data,
            frame,
            phase: Phase::Meta,
            bit_depth: 0,
            position: 0,
        };
        let action = Action::Execute(meta_command(self.stream_id.as_str(), "bit_depth"));
        (upload, action)
    }
}

impl<'a> Upload<'a> {
    #[verifier::type_invariant]
    spec fn inv(self) -> bool {
        self.frame.flag_byte() == spec_flags(self.compression)
    }

    /// Where the upload stands.
    pub fn phase(&self) -> (phase: Phase)
        ensures
            phase == self@.phase,
    {
        self.phase
    }

    /// The number of samples that have been put into envelopes.
    pub fn position(&self) -> (position: usize)
        ensures
            position == self@.position,
    {
        self.position
    }

    /// The session identifier that every frame of this upload carries.
    pub fn session_id(&self) -> (id: [u8; 16])
        ensures
            id@ == self@.session,
    {
        self.frame.session_id()
    }

    /// Builds the next envelope. `None` means that the compressor failed.
    fn next_batch(&self, width: u16, per_frame: usize) -> (r: Option<(Vec<u8>, usize)>)
        requires
            sample_width(self@.bit_depth) == Some(width as nat),
            per_frame == self@.per_frame(width as nat),
            per_frame > 0,
            self@.position < self@.data.len(),
        ensures
            match r {
                Some((bytes, end)) => bytes@ == self@.next_envelope(width as nat) && end
                    == self@.next_position(width as nat),
                None => self@.compression,
            },
    {
        proof {
            use_type_invariant(self);
        }
        let limit: u32 = if self.batch_size == 0 {
            u32::MAX
        } else {
            self.batch_size
        };
        let len = self.data.len();
        let ghost view = self@;
        let ghost w = width as nat;
        let mut frames: Vec<Vec<u8>> = Vec::new();
        let mut pos: usize = self.position;
        let mut count: u32 = 0;
        let ghost mut groups: Seq<Seq<i32>> = Seq::empty();
        assert(contents(frames@) =~= view.frames(w, groups));
        while count < limit && pos < len
            invariant
                view == self@,
                w == width as nat,
                sample_width(view.bit_depth) == Some(w),
                self.frame.flag_byte() == spec_flags(self.compression),
                len == self.data@.len(),
                limit == view.limit(),
                per_frame == view.per_frame(w),
                per_frame > 0,
                pos <= len,
                count <= limit,
                frames@.len() == count,
                groups.len() == count,
                view.batch(w) == groups + chunks(
                    view.data,
                    pos as nat,
                    per_frame as nat,
                    (limit - count) as nat,
                ),
                view.next_position(w) == chunks_end(
                    len as nat,
                    pos as nat,
                    per_frame as nat,
                    (limit - count) as nat,
                ),
                contents(frames@) == view.frames(w, groups),
            decreases len - pos,
        {
            let end: usize = if len - pos > per_frame {
                pos + per_frame
            } else {
                len
            };
            let chunk = slice_subrange(self.data, pos, end);
            let packed_block = pack(chunk, self.bit_depth).unwrap();
            let block = if self.compression {
                match compress(packed_block.as_slice(), self.compression_level) {
                    Ok(compressed) => compressed,
                    Err(_) => {
                        return None;
                    },
                }
            } else {
                packed_block
            };
            let encoded = self.frame.pack(block.as_slice());
            proof {
                let rest = chunks(view.data, end as nat, per_frame as nat, (limit - count - 1) as nat);
                assert(groups + (seq![chunk@] + rest) =~= groups.push(chunk@) + rest);
                assert(encoded@ == view.frame(w, chunk@));
                let got = contents(frames@.push(encoded));
                let want = view.frames(w, groups.push(chunk@));
                assert forall|i: int| 0 <= i < got.len() implies got[i] == want[i] by {
                    if i < count {
                        assert(got[i] == contents(frames@)[i]);
                        assert(want[i] == view.frames(w, groups)[i]);
                    }
                }
                assert(got =~= want);
                groups = groups.push(chunk@);
            }
            frames.push(encoded);
            pos = end;
            count += 1;
        }
        proof {
            assert(groups + Seq::<Seq<i32>>::empty() =~= groups);
        }
        Some((envelope(&frames), pos))
    }

    /// What follows an acknowledged OPEN or envelope.
    fn proceed(&mut self) -> (action: Action)
        ensures
            ({
                let (next, want) = old(self)@.proceed();
                ||| final(self)@ == next && action@ == want
                ||| old(self)@.compression && want is Send && final(self)@ == old(self)@.at(
                    Phase::Failed,
                ) && action@ == ActionView::Fail(ErrorView::Compression)
            }),
    {
        proof {
            use_type_invariant(&*self);
        }
        let width: u16 = if self.bit_depth == 16 {
            2
        } else if self.bit_depth == 24 {
            3
        } else {
            self.phase = Phase::Failed;
            return Action::Fail(Error::UnsupportedBitDepth);
        };
        let per_frame = (self.chunk_size / width) as usize;
        if per_frame == 0 {
            self.phase = Phase::Failed;
            return Action::Fail(Error::ChunkTooSmall);
        }
        if self.position >= self.data.len() {
            self.phase = Phase::Close;
            return Action::Execute(close_command(self.stream_id.as_str()));
        }
        match self.next_batch(width, per_frame) {
            Some((bytes, end)) => {
                self.phase = Phase::Batches;
                self.position = end;
                Action::Send(bytes)
            },
            None => {
                self.phase = Phase::Failed;
                Action::Fail(Error::Compression)
            },
        }
    }

    /// Takes the upload one step on: `reply` is the decoded reply to the
    /// action that the previous step, or `execute`, asked for.
    ///
    /// The bit depth reply must be an integer, and only 16 and 24 are
    /// supported: with any other integer the stream is still opened, and the
    /// upload then fails without an envelope and without CLOSE. After the
    /// stream is open, envelopes follow while samples are
    /// left, each with as many frames as the batch size allows, and CLOSE
    /// follows the last acknowledgment. Any failed reply ends the upload:
    /// nothing more is sent, CLOSE included. Where the compressor fails on a
    /// block, the upload fails in place of sending the envelope.
    pub fn step(&mut self, reply: Result<Types, Error>) -> (action: Action)
        ensures
            ({
                let (next, want) = old(self)@.step(outcome(reply));
                ||| final(self)@ == next && action@ == want
                ||| old(self)@.compression && want is Send && final(self)@ == old(self)@.at(
                    Phase::Failed,
                ) && action@ == ActionView::Fail(ErrorView::Compression)
            }),
    {
        proof {
            use_type_invariant(&*self);
        }
        match self.phase {
            Phase::Completed => {
                return Action::Done;
            },
            Phase::Failed => {
                return Action::Fail(Error::Finished);
            },
            _ => {},
        }
        let value = match reply {
            Ok(value) => value,
            Err(e) => {
                self.phase = Phase::Failed;
                return Action::Fail(e);
            },
        };
        match self.phase {
            Phase::Meta => match value {
                Types::Int(depth) => {
                    self.bit_depth = if depth == 16 {
                        16
                    } else if depth == 24 {
                        24
                    } else {
                        0
                    };
                    self.phase = Phase::Open;
                    Action::Execute(open_command(self.stream_id.as_str()))
                },
                _ => {
                    self.phase = Phase::Failed;
                    Action::Fail(Error::InvalidBitDepth)
                },
            },
            Phase::Close => {
                self.phase = Phase::Completed;
                Action::Done
            },
            _ => self.proceed(),
        }
    }
}

/// An envelope is never empty: while samples are left and a frame holds at
/// least one sample, the next batch has a first group, that group holds at
/// least one sample, and the upload moves on.
pub proof fn lemma_batch_not_empty(data: Seq<i32>, from: nat, per_frame: nat, limit: nat)
    requires
        from < data.len(),
        per_frame > 0,
        limit > 0,
    ensures
        chunks(data, from, per_frame, limit).len() >= 1,
        chunks(data, from, per_frame, limit).len() <= limit,
        chunks(data, from, per_frame, limit)[0].len() >= 1,
        from < chunks_end(data.len(), from, per_frame, limit) <= data.len(),
{
    lemma_chunks_bounds(data, from, per_frame, limit);
}

/// A batch holds at most `limit` groups and ends within the data, not before its start.
pub proof fn lemma_chunks_bounds(data: Seq<i32>, from: nat, per_frame: nat, limit: nat)
    requires
        from <= data.len(),
    ensures
        chunks(data, from, per_frame, limit).len() <= limit,
        from <= chunks_end(data.len(), from, per_frame, limit) <= data.len(),
        limit > 0 && from < data.len() && per_frame > 0 ==> {
            &&& chunks(data, from, per_frame, limit).len() >= 1
            &&& chunks(data, from, per_frame, limit)[0].len() >= 1
            &&& from < chunks_end(data.len(), from, per_frame, limit)
        },
    decreases limit,
{
    if limit == 0 || from >= data.len() || per_frame == 0 {
    } else {
        let end = if from + per_frame < data.len() {
            from + per_frame
        } else {
            data.len()
        };
        lemma_chunks_bounds(data, end, per_frame, (limit - 1) as nat);
        let rest = chunks(data, end, per_frame, (limit - 1) as nat);
        assert(chunks(data, from, per_frame, limit) == seq![data.subrange(from as int, end as int)]
            + rest);
    }
}

/// The groups of a batch, joined, are the samples from where the batch starts
/// to where it ends: no sample is lost, repeated or split between frames.
pub proof fn lemma_chunks_cover(data: Seq<i32>, from: nat, per_frame: nat, limit: nat)
    requires
        from <= data.len(),
    ensures
        chunks(data, from, per_frame, limit).flatten() == data.subrange(
            from as int,
            chunks_end(data.len(), from, per_frame, limit) as int,
        ),
    decreases limit,
{
    let groups = chunks(data, from, per_frame, limit);
    if limit == 0 || from >= data.len() || per_frame == 0 {
        assert(groups.flatten() =~= data.subrange(from as int, from as int));
    } else {
        let end = if from + per_frame < data.len() {
            from + per_frame
        } else {
            data.len()
        };
        let rest = chunks(data, end, per_frame, (limit - 1) as nat);
        lemma_chunks_cover(data, end, per_frame, (limit - 1) as nat);
        lemma_chunks_bounds(data, end, per_frame, (limit - 1) as nat);
        assert(groups.first() == data.subrange(from as int, end as int));
        assert(groups.drop_first() =~= rest);
        assert(groups.flatten() =~= data.subrange(
            from as int,
            chunks_end(data.len(), from, per_frame, limit) as int,
        ));
    }
}

/// Every group of a batch holds at least one sample and at most a frame's
/// worth, and every group but the last holds exactly a frame's worth.
pub proof fn lemma_chunks_sizes(data: Seq<i32>, from: nat, per_frame: nat, limit: nat, i: int)
    requires
        from <= data.len(),
        0 <= i < chunks(data, from, per_frame, limit).len(),
    ensures
        1 <= chunks(data, from, per_frame, limit)[i].len() <= per_frame,
        i + 1 < chunks(data, from, per_frame, limit).len() ==> chunks(
            data,
            from,
            per_frame,
            limit,
        )[i].len() == per_frame,
    decreases limit,
{
    if limit == 0 || from >= data.len() || per_frame == 0 {
    } else {
        let end = if from + per_frame < data.len() {
            from + per_frame
        } else {
            data.len()
        };
        let rest = chunks(data, end, per_frame, (limit - 1) as nat);
        if i > 0 {
            lemma_chunks_sizes(data, end, per_frame, (limit - 1) as nat, i - 1);
            assert(chunks(data, from, per_frame, limit)[i] == rest[i - 1]);
        } else if rest.len() > 0 {
            assert(end < data.len());
        }
    }
}

/// Batching does not change which frames are sent: a batch of `first` groups
/// followed by a batch of `second` groups from where the first one ended
/// carries the groups of one batch of `first + second`.
pub proof fn lemma_batches_compose(
    data: Seq<i32>,
    from: nat,
    per_frame: nat,
    first: nat,
    second: nat,
)
    requires
        from <= data.len(),
    ensures
        chunks(data, from, per_frame, first + second) == chunks(data, from, per_frame, first)
            + chunks(data, chunks_end(data.len(), from, per_frame, first), per_frame, second),
        chunks_end(data.len(), from, per_frame, first + second) == chunks_end(
            data.len(),
            chunks_end(data.len(), from, per_frame, first),
            per_frame,
            second,
        ),
    decreases first,
{
    let middle = chunks_end(data.len(), from, per_frame, first);
    if from >= data.len() || per_frame == 0 {
        lemma_chunks_stop(data, from, per_frame, first);
        lemma_chunks_stop(data, from, per_frame, second);
        lemma_chunks_stop(data, from, per_frame, first + second);
        assert(Seq::<Seq<i32>>::empty() + Seq::<Seq<i32>>::empty() =~= Seq::<Seq<i32>>::empty());
    } else if first == 0 {
        assert(chunks(data, from, per_frame, second) =~= Seq::<Seq<i32>>::empty() + chunks(
            data,
            from,
            per_frame,
            second,
        ));
    } else {
        let end = if from + per_frame < data.len() {
            from + per_frame
        } else {
            data.len()
        };
        lemma_batches_compose(data, end, per_frame, (first - 1) as nat, second);
        let head = seq![data.subrange(from as int, end as int)];
        let a = chunks(data, end, per_frame, (first - 1) as nat);
        let b = chunks(data, middle, per_frame, second);
        assert(chunks(data, from, per_frame, first + second) == head + chunks(
            data,
            end,
            per_frame,
            (first + second - 1) as nat,
        ));
        assert(head + (a + b) =~= (head + a) + b);
    }
}

/// Past the end of the data, or with frames that hold no sample, a batch is empty.
proof fn lemma_chunks_stop(data: Seq<i32>, from: nat, per_frame: nat, limit: nat)
    requires
        from >= data.len() || per_frame == 0,
    ensures
        chunks(data, from, per_frame, limit) == Seq::<Seq<i32>>::empty(),
        chunks_end(data.len(), from, per_frame, limit) == from,
{
}

/// How far along the protocol a phase is.
pub open spec fn rank(phase: Phase) -> nat {
    match phase {
        Phase::Meta => 0,
        Phase::Open => 1,
        Phase::Batches => 2,
        Phase::Close => 3,
        Phase::Completed => 4,
        Phase::Failed => 5,
    }
}

/// The protocol of an upload, whatever the replies are. A completed or failed
/// upload stays as it is and asks for nothing more, so nothing is sent after
/// the first error, CLOSE included. A failed reply fails the upload with that
/// error. The bit depth must be an integer before anything else is asked for.
/// The phases only move forward, and CLOSE is asked for only when every
/// sample has been put into an envelope.
pub proof fn lemma_upload_protocol(upload: UploadView, reply: Result<Value, ErrorView>)
    ensures
        ({
            let (next, action) = upload.step(reply);
            &&& rank(upload.phase) <= rank(next.phase)
            &&& upload.phase == Phase::Completed || upload.phase == Phase::Failed ==> next == upload
                && !(action is Execute) && !(action is Send)
            &&& next.phase == Phase::Failed ==> action is Fail
            &&& action is Fail ==> next.phase == Phase::Failed
            &&& reply is Err && rank(upload.phase) <= 3 ==> next == upload.at(Phase::Failed)
                && action == ActionView::Fail(reply->Err_0)
            &&& upload.phase == Phase::Meta && reply is Ok && !(reply->Ok_0 is Int) ==> action
                == ActionView::Fail(ErrorView::InvalidBitDepth)
            &&& upload.phase == Phase::Meta ==> !(action is Send)
            &&& next.phase == Phase::Close ==> upload.position >= upload.data.len() && action
                == ActionView::Execute(quoted("CLOSE"@, upload.stream_id))
            &&& action is Done <==> next.phase == Phase::Completed
        }),
{
}

/// Every bit depth other than 16 and 24 is unsupported, for every integer
/// that the server may answer with: the stream is opened, and the step after
/// that fails the upload, whatever the data and the configuration are. No
/// envelope is sent and CLOSE is not asked for.
pub proof fn lemma_unsupported_depth(
    upload: UploadView,
    depth: i64,
    opened: Result<Value, ErrorView>,
)
    requires
        upload.phase == Phase::Meta,
        depth != 16,
        depth != 24,
    ensures
        ({
            let (open, first) = upload.step(Ok(Value::Int(depth)));
            let (end, second) = open.step(opened);
            &&& first == ActionView::Execute(quoted("OPEN"@, upload.stream_id))
            &&& open.phase == Phase::Open
            &&& sample_width(open.bit_depth) is None
            &&& end.phase == Phase::Failed
            &&& end.position == upload.position
            &&& opened is Ok ==> second == ActionView::Fail(ErrorView::UnsupportedBitDepth)
            &&& opened is Err ==> second == ActionView::Fail(opened->Err_0)
        }),
{
}

/// A supported bit depth is kept as the server gave it.
pub proof fn lemma_supported_depth(depth: i64)
    ensures
        sample_width(supported_depth(depth)) is Some <==> depth == 16 || depth == 24,
        depth == 16 || depth == 24 ==> supported_depth(depth) == depth,
{
}

/// Every envelope that an upload sends carries at least one frame and at
/// most as many as the batch size allows, and takes the upload further into
/// the data, never past its end.
pub proof fn lemma_envelope_not_empty(upload: UploadView)
    requires
        upload.position <= upload.data.len(),
        upload.proceed().1 is Send,
    ensures
        sample_width(upload.bit_depth) matches Some(width) && {
            &&& 1 <= upload.batch(width).len() <= upload.limit()
            &&& upload.position < upload.proceed().0.position <= upload.data.len()
        },
{
    let width = sample_width(upload.bit_depth).unwrap();
    lemma_chunks_bounds(upload.data, upload.position, upload.per_frame(width), upload.limit());
}

} // verus!
