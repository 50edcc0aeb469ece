//! The inbound reassembler: collects the frames a peer writes into a
//! candidate payload and hands it out only once its hash has been checked.

use vstd::prelude::*;
use vstd::slice::slice_subrange;
use vstd::slice::slice_to_vec;
use rustable::gatt::AttValue;
use crate::att::att_bytes;
use crate::att::att_empty;
use crate::att::att_extend;
use crate::digest::sha256;
use crate::digest::sha256_digest;
use crate::wire::be32;
use crate::wire::be32_value;
use crate::wire::decode_be32;
use crate::wire::encode_be32;
use crate::wire::bytes_equal;
use crate::wire::lemma_be32_of_be32_value;
use crate::wire::lemma_be32_value_of_be32;
use crate::wire::HASH_LEN;
use crate::wire::SENTINEL;

verus! {

/// Length of the header of a reassembly frame: offset field and length field.
pub const CHUNK_HEADER_LEN: usize = 8;

/// Length of a start frame: header and target hash.
pub const START_FRAME_LEN: usize = 40;

/// What the reassembler holds: the hash and the length that the last start
/// frame announced, and the bytes received since.
pub struct InView {
    pub hash: Seq<u8>,
    pub expected: nat,
    pub buf: Seq<u8>,
}

/// What a frame led to.
pub enum Outcome {
    /// The buffer reached the announced length and hashes to the announced hash.
    Completed(Seq<u8>),
    /// The frame was taken in; more is to come.
    Pending,
    /// The frame was malformed, or the finished buffer failed its hash.
    Rejected,
}

/// The offset field of a reassembly frame.
pub open spec fn frame_offset(frame: Seq<u8>) -> int
    recommends
        frame.len() >= CHUNK_HEADER_LEN,
{
    be32_value(frame.subrange(0, 4))
}

/// The length field of a reassembly frame.
pub open spec fn frame_declared(frame: Seq<u8>) -> int
    recommends
        frame.len() >= CHUNK_HEADER_LEN,
{
    be32_value(frame.subrange(4, 8))
}

/// What follows the header of a reassembly frame.
pub open spec fn frame_body(frame: Seq<u8>) -> Seq<u8>
    recommends
        frame.len() >= CHUNK_HEADER_LEN,
{
    frame.subrange(CHUNK_HEADER_LEN as int, frame.len() as int)
}

/// The frame that announces a payload of `len` bytes with hash `hash`.
pub open spec fn start_frame(len: u32, hash: Seq<u8>) -> Seq<u8> {
    be32(SENTINEL) + be32(len) + hash
}

/// The frame that carries `body` as the slice of the payload at `offset`.
pub open spec fn chunk_frame(offset: u32, body: Seq<u8>) -> Seq<u8> {
    be32(offset) + be32(body.len() as u32) + body
}

impl InView {
    /// The buffer never outgrows the announced length, which fits its
    /// 32-bit field.
    pub open spec fn inv(self) -> bool {
        &&& self.hash.len() == HASH_LEN
        &&& self.buf.len() <= self.expected <= u32::MAX
    }

    /// The state before any frame: nothing announced, nothing received.
    pub open spec fn initial() -> InView {
        InView { hash: Seq::new(HASH_LEN as nat, |i: int| 0u8), expected: 0, buf: Seq::empty() }
    }

    /// The buffer has reached the announced length.
    pub open spec fn is_full(self) -> bool {
        self.buf.len() == self.expected
    }

    /// The state with `frame` taken in, before any check of the hash; `None`
    /// where the frame is malformed: shorter than its header, a start frame
    /// of another length than 40, a chunk whose length field is not the
    /// length of its body, or a chunk that would outgrow the announced length.
    pub open spec fn staged(self, frame: Seq<u8>) -> Option<InView> {
        if frame.len() < CHUNK_HEADER_LEN {
            None
        } else if frame_offset(frame) == SENTINEL {
            if frame.len() != START_FRAME_LEN {
                None
            } else {
                Some(
                    InView {
                        hash: frame_body(frame),
                        expected: frame_declared(frame) as nat,
                        buf: Seq::empty(),
                    },
                )
            }
        } else if frame_declared(frame) + CHUNK_HEADER_LEN != frame.len() {
            None
        } else if self.buf.len() + frame_declared(frame) > self.expected {
            None
        } else {
            Some(InView { buf: self.buf + frame_body(frame), ..self })
        }
    }

    /// The verdict on the buffer, given its digest: nothing happens while
    /// the buffer is short of the announced length; a full buffer is handed
    /// out if `digest` is the announced hash, and dropped if not.
    pub open spec fn concluded(self, digest: Seq<u8>) -> (InView, Outcome) {
        if !self.is_full() {
            (self, Outcome::Pending)
        } else if digest == self.hash {
            (self, Outcome::Completed(self.buf))
        } else {
            (InView { buf: Seq::empty(), ..self }, Outcome::Rejected)
        }
    }

    /// One frame, whole: a malformed frame is rejected and changes nothing;
    /// any other is taken in, and the buffer, if full, judged by its digest.
    pub open spec fn accept(self, frame: Seq<u8>) -> (InView, Outcome) {
        match self.staged(frame) {
            None => (self, Outcome::Rejected),
            Some(s) => s.concluded(sha256_digest(s.buf)),
        }
    }

    /// The 40 bytes that report progress: bytes received, bytes announced,
    /// announced hash.
    pub open spec fn status_frame(self) -> Seq<u8> {
        be32(self.buf.len() as u32) + be32(self.expected as u32) + self.hash
    }
}

/// The outcome that a returned value stands for.
pub open spec fn outcome_of(r: Result<Option<Vec<u8>>, ()>) -> Outcome {
    match r {
        Ok(Some(bytes)) => Outcome::Completed(bytes@),
        Ok(None) => Outcome::Pending,
        Err(_) => Outcome::Rejected,
    }
}

/// Reassembles one payload at a time from the frames of a peer.
#[derive(Debug)]
pub struct InSyncer {
    hash: [u8; 32],
    msg_length: usize,
    data_buf: Vec<u8>,
}

impl View for InSyncer {
    type V = InView;

    closed spec fn view(&self) -> InView {
        InView { hash: self.hash@, expected: self.msg_length as nat, buf: self.data_buf@ }
    }
}

impl Default for InSyncer {
    /// A reassembler that has seen no frame.
    fn default() -> (s: Self)
        ensures
            s@ == InView::initial(),
    {
        let s = InSyncer { hash: [0u8; 32], msg_length: 0, data_buf: Vec::new() };
        assert(s.hash@ =~= InView::initial().hash);
        s
    }
}

impl InSyncer {
    /// Holds of every reassembler.
    #[verifier::type_invariant]
    pub open spec fn wf(&self) -> bool {
        self@.inv()
    }

    /// The progress report that answers a direct read: 40 bytes.
    pub fn read_fn(&self) -> (ret: AttValue)
        ensures
            att_bytes(ret) == self@.status_frame(),
    {
        proof {
            use_type_invariant(self);
        }
        let mut ret = att_empty();
        let received = encode_be32(self.data_buf.len() as u32);
        att_extend(&mut ret, received.as_slice());
        let announced = encode_be32(self.msg_length as u32);
        att_extend(&mut ret, announced.as_slice());
        att_extend(&mut ret, self.hash.as_slice());
        ret
    }

    /// Takes one frame in without judging the buffer: a start frame resets
    /// the reassembler to what it announces, a chunk is appended. A
    /// malformed frame is refused and leaves the reassembler as it was.
    pub fn stage(&mut self, v: &[u8]) -> (r: Result<(), ()>)
        ensures
            match old(self)@.staged(v@) {
                Some(s) => r is Ok && final(self)@ == s,
                None => r is Err && final(self)@ == old(self)@,
            },
    {
        proof {
            use_type_invariant(&*self);
        }
        if v.len() < CHUNK_HEADER_LEN {
            return Err(());
        }
        let p_num = decode_be32(v, 0);
        let p_len = decode_be32(v, 4);
        proof {
            lemma_be32_of_be32_value(v@.subrange(4, 8));
        }
        if p_num == SENTINEL {
            if v.len() != START_FRAME_LEN {
                return Err(());
            }
            let mut hash = [0u8; 32];
            let mut i: usize = 0;
            while i < HASH_LEN
                invariant
                    i <= HASH_LEN,
                    v@.len() == START_FRAME_LEN,
                    forall|j: int| 0 <= j < i ==> hash@[j] == v@[CHUNK_HEADER_LEN + j],
                decreases HASH_LEN - i,
            {
                hash[i] = v[CHUNK_HEADER_LEN + i];
                i += 1;
            }
            assert(hash@ =~= frame_body(v@));
            self.data_buf = Vec::new();
            self.msg_length = p_len as usize;
            self.hash = hash;
            Ok(())
        } else {
            let body_len = v.len() - CHUNK_HEADER_LEN;
            if p_len as usize != body_len {
                return Err(());
            }
            if body_len > self.msg_length - self.data_buf.len() {
                return Err(());
            }
            // The buffer grows outside the reassembler, which stays well
            // formed meanwhile, and is put back once the chunk is in.
            let ghost before = self.data_buf@;
            let mut buf: Vec<u8> = Vec::new();
            core::mem::swap(&mut self.data_buf, &mut buf);
            buf.extend_from_slice(slice_subrange(v, CHUNK_HEADER_LEN, v.len()));
            assert(buf@ =~= before + frame_body(v@));
            self.data_buf = buf;
            Ok(())
        }
    }

    /// Whether the buffer has reached the announced length.
    pub fn is_full(&self) -> (b: bool)
        ensures
            b == self@.is_full(),
    {
        self.data_buf.len() == self.msg_length
    }

    /// Judges the buffer by `digest`, which the caller has computed over it:
    /// while the buffer is short of the announced length nothing happens;
    /// a full buffer is handed out if `digest` is the announced hash, and
    /// is dropped, with an error, if it is not.
    pub fn conclude(&mut self, digest: &[u8; 32]) -> (r: Result<Option<Vec<u8>>, ()>)
        ensures
            final(self)@ == old(self)@.concluded(digest@).0,
            outcome_of(r) == old(self)@.concluded(digest@).1,
    {
        proof {
            use_type_invariant(&*self);
        }
        if self.data_buf.len() != self.msg_length {
            Ok(None)
        } else if bytes_equal(digest.as_slice(), self.hash.as_slice()) {
            Ok(Some(slice_to_vec(self.data_buf.as_slice())))
        } else {
            self.data_buf = Vec::new();
            Err(())
        }
    }

    /// Takes one frame from the peer. A malformed frame is rejected and
    /// changes nothing. Otherwise the frame is taken in, and once the buffer
    /// has reached the announced length it is hashed: on a match the bytes
    /// are returned, on a mismatch the buffer is dropped and the frame
    /// rejected.
    pub fn process_write(&mut self, v: &[u8]) -> (r: Result<Option<Vec<u8>>, ()>)
        ensures
            final(self)@ == old(self)@.accept(v@).0,
            outcome_of(r) == old(self)@.accept(v@).1,
    {
        match self.stage(v) {
            Err(_) => Err(()),
            Ok(_) => {
                if self.is_full() {
                    let digest = sha256(self.data_buf.as_slice());
                    self.conclude(&digest)
                } else {
                    Ok(None)
                }
            },
        }
    }
}

/// Every frame leaves the reassembler consistent.
pub proof fn lemma_accept_keeps_inv(s: InView, frame: Seq<u8>)
    requires
        s.inv(),
    ensures
        s.accept(frame).0.inv(),
{
    if frame.len() >= CHUNK_HEADER_LEN {
        lemma_be32_of_be32_value(frame.subrange(4, 8));
    }
}

/// Whatever the frames were, bytes are handed out only if they are the
/// whole buffer, have the announced length and hash to the announced hash.
pub proof fn lemma_completed_is_verified(s: InView, frame: Seq<u8>)
    requires
        s.accept(frame).1 is Completed,
    ensures
        s.accept(frame).1->Completed_0 == s.accept(frame).0.buf,
        s.accept(frame).0.buf.len() == s.accept(frame).0.expected,
        sha256_digest(s.accept(frame).0.buf) == s.accept(frame).0.hash,
{
}

/// A chunk whose length field is not the length of its body is rejected at
/// once, and changes nothing.
pub proof fn lemma_wrong_length_rejected(s: InView, frame: Seq<u8>)
    requires
        frame.len() >= CHUNK_HEADER_LEN,
        frame_offset(frame) != SENTINEL,
        frame_declared(frame) != frame.len() - CHUNK_HEADER_LEN,
    ensures
        s.accept(frame) == (s, Outcome::Rejected),
{
}

/// A well-formed chunk that does not fill the buffer is taken in whatever
/// it carries: bytes are not judged before the last one is there.
pub proof fn lemma_chunk_pending(s: InView, offset: u32, body: Seq<u8>)
    requires
        s.inv(),
        offset != SENTINEL,
        s.buf.len() + body.len() < s.expected,
    ensures
        s.accept(chunk_frame(offset, body)) == (
            InView { buf: s.buf + body, ..s },
            Outcome::Pending,
        ),
{
    lemma_chunk_frame_fields(offset, body);
}

/// A well-formed chunk that fills the buffer with bytes that do not hash
/// to the announced hash is rejected, and the buffer is dropped. So a
/// payload with a changed byte is rejected at the chunk that completes it,
/// unless the changed payload has the digest of the announced one.
pub proof fn lemma_corrupted_rejected(s: InView, offset: u32, body: Seq<u8>)
    requires
        s.inv(),
        offset != SENTINEL,
        s.buf.len() + body.len() == s.expected,
        sha256_digest(s.buf + body) != s.hash,
    ensures
        s.accept(chunk_frame(offset, body)) == (
            InView { buf: Seq::empty(), ..s },
            Outcome::Rejected,
        ),
{
    lemma_chunk_frame_fields(offset, body);
}

/// A well-formed chunk that fills the buffer with bytes that hash to the
/// announced hash completes the payload.
pub proof fn lemma_last_chunk_completes(s: InView, offset: u32, body: Seq<u8>)
    requires
        s.inv(),
        offset != SENTINEL,
        s.buf.len() + body.len() == s.expected,
        sha256_digest(s.buf + body) == s.hash,
    ensures
        s.accept(chunk_frame(offset, body)) == (
            InView { buf: s.buf + body, ..s },
            Outcome::Completed(s.buf + body),
        ),
{
    lemma_chunk_frame_fields(offset, body);
}

/// The fields of a chunk frame read back as they were written.
pub proof fn lemma_chunk_frame_fields(offset: u32, body: Seq<u8>)
    requires
        body.len() <= u32::MAX,
    ensures
        chunk_frame(offset, body).len() == CHUNK_HEADER_LEN + body.len(),
        frame_offset(chunk_frame(offset, body)) == offset,
        frame_declared(chunk_frame(offset, body)) == body.len(),
        frame_body(chunk_frame(offset, body)) == body,
{
    let f = chunk_frame(offset, body);
    lemma_be32_value_of_be32(offset);
    lemma_be32_value_of_be32(body.len() as u32);
    assert(f.subrange(0, 4) =~= be32(offset));
    assert(f.subrange(4, 8) =~= be32(body.len() as u32));
    assert(frame_body(f) =~= body);
}

/// The fields of a start frame read back as they were written.
pub proof fn lemma_start_frame_fields(len: u32, hash: Seq<u8>)
    requires
        hash.len() == HASH_LEN,
    ensures
        start_frame(len, hash).len() == START_FRAME_LEN,
        frame_offset(start_frame(len, hash)) == SENTINEL,
        frame_declared(start_frame(len, hash)) == len,
        frame_body(start_frame(len, hash)) == hash,
{
    let f = start_frame(len, hash);
    lemma_be32_value_of_be32(SENTINEL);
    lemma_be32_value_of_be32(len);
    assert(f.subrange(0, 4) =~= be32(SENTINEL));
    assert(f.subrange(4, 8) =~= be32(len));
    assert(frame_body(f) =~= hash);
}

} // verus!
