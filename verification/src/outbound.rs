//! The outbound pusher: holds one payload, follows what the peer has
//! acknowledged, and says which frame to send next.
//!
//! The pusher itself sends nothing. Whoever drives it asks for the next
//! frame with [`OutSyncer::next_indication`], hands that frame to the
//! transport, and reports a delivered data frame with
//! [`OutSyncer::delivered`]; a frame the transport refused is simply not
//! reported, and the pusher offers it again.

use vstd::prelude::*;
use vstd::slice::slice_subrange;
use rustable::gatt::AttValue;
use crate::att::att_bytes;
use crate::att::att_empty;
use crate::att::att_extend;
use crate::att::att_from_slice;
use crate::att::FRAME_CAPACITY;
use crate::clip::Clip;
use crate::clip::ClipView;
use crate::wire::be32;
use crate::wire::be32_value;
use crate::wire::bytes_equal;
use crate::wire::decode_be32;
use crate::wire::encode_be32;
use crate::wire::lemma_be32_of_be32_value;
use crate::wire::HASH_LEN;
use crate::wire::SENTINEL;

verus! {

/// Smallest chunk size, and the chunk size of a new pusher.
pub const MIN_NOTIFY_LEN: usize = 64;

/// Largest frame given in answer to a direct read: one byte short of the
/// transport's capacity, which some peers insist on.
pub const READ_LIMIT: usize = 511;

/// Length of the header of a data frame: the offset field.
pub const DATA_HEADER_LEN: usize = 4;

/// Length of a metadata frame before the MIME type: offset field, hash,
/// length field.
pub const METADATA_HEADER_LEN: usize = 40;

/// Length of an acknowledgement that carries an offset only.
pub const ACK_LEN: usize = 4;

/// Length of an acknowledgement that carries an offset and a hash.
pub const ACK_WITH_HASH_LEN: usize = 36;

/// How far the peer has followed the payload.
#[derive(Clone, Copy, Debug, PartialEq, Eq, Structural)]
pub enum Progress {
    /// The peer has not yet said which payload it is following, nor from where.
    Unconfirmed,
    /// The peer has confirmed the bytes before `acked`; the bytes before
    /// `sent` have been handed to the transport.
    Confirmed { acked: u32, sent: u32 },
}

/// What the pusher is: its payload, its progress, its chunk size.
pub struct OutView {
    pub clip: ClipView,
    pub progress: Progress,
    pub chunk: nat,
    pub verbose: u8,
}

/// What a push has to do next.
pub enum PushView {
    /// Nothing: the peer has everything, or the window is used up.
    Idle,
    /// Announce the payload with this metadata frame, once.
    Metadata(Seq<u8>),
    /// Send this data frame, and go on if it was delivered.
    Data(Seq<u8>),
}

/// `s`, cut off after `limit` bytes.
pub open spec fn clipped(s: Seq<u8>, limit: nat) -> Seq<u8> {
    if s.len() <= limit {
        s
    } else {
        s.take(limit as int)
    }
}

/// The frame that announces `clip`: reserved offset, hash, length, MIME type.
pub open spec fn metadata_frame(clip: ClipView) -> Seq<u8> {
    be32(SENTINEL) + clip.hash + be32(clip.data.len() as u32) + clip.mime_bytes()
}

/// Where the slice ends that a frame of at most `limit` bytes carries from
/// `offset` on, out of `len` bytes.
pub open spec fn data_end(len: nat, offset: nat, limit: nat) -> nat {
    if offset + limit - DATA_HEADER_LEN <= len {
        (offset + limit - DATA_HEADER_LEN) as nat
    } else {
        len
    }
}

/// The frame of at most `limit` bytes that carries `data` from `offset` on:
/// the offset, then the bytes.
pub open spec fn data_frame(data: Seq<u8>, offset: u32, limit: nat) -> Seq<u8> {
    be32(offset) + data.subrange(offset as int, data_end(data.len(), offset as nat, limit) as int)
}

/// The offset that an acknowledgement announces.
pub open spec fn ack_offset(frame: Seq<u8>) -> int
    recommends
        frame.len() >= ACK_LEN,
{
    be32_value(frame.subrange(0, ACK_LEN as int))
}

/// The hash that an acknowledgement of 36 bytes carries.
pub open spec fn ack_hash(frame: Seq<u8>) -> Seq<u8>
    recommends
        frame.len() == ACK_WITH_HASH_LEN,
{
    frame.subrange(ACK_LEN as int, ACK_WITH_HASH_LEN as int)
}

/// An acknowledgement is 4 bytes long, or 36.
pub open spec fn is_ack_frame(frame: Seq<u8>) -> bool {
    frame.len() == ACK_LEN || frame.len() == ACK_WITH_HASH_LEN
}

impl OutView {
    /// The payload fits the 32-bit fields of the wire and leaves the
    /// reserved offset free; the chunk size has its floor; what was
    /// acknowledged was sent, and what was sent is part of the payload.
    pub open spec fn inv(self) -> bool {
        &&& self.clip.hashed()
        &&& self.clip.data.len() < SENTINEL
        &&& MIN_NOTIFY_LEN <= self.chunk <= usize::MAX
        &&& match self.progress {
            Progress::Unconfirmed => true,
            Progress::Confirmed { acked, sent } => acked <= sent <= self.clip.data.len(),
        }
    }

    /// A pusher that has just been given `clip`.
    pub open spec fn fresh(clip: ClipView, verbose: u8) -> OutView {
        OutView { clip, progress: Progress::Unconfirmed, chunk: MIN_NOTIFY_LEN as nat, verbose }
    }

    /// No transfer is under way: the peer has confirmed nothing yet, or
    /// everything.
    pub open spec fn at_rest(self) -> bool {
        match self.progress {
            Progress::Unconfirmed => true,
            Progress::Confirmed { acked, sent } => acked == self.clip.data.len(),
        }
    }

    /// Largest data frame of a push: the chunk size, as far as the
    /// transport's buffer holds it.
    pub open spec fn frame_limit(self) -> nat {
        if self.chunk <= FRAME_CAPACITY {
            self.chunk
        } else {
            FRAME_CAPACITY as nat
        }
    }

    /// Where a push stops: one chunk size past the acknowledged offset, or
    /// at the end of the payload.
    pub open spec fn window_end(self) -> nat {
        match self.progress {
            Progress::Unconfirmed => 0,
            Progress::Confirmed { acked, sent } => if acked + self.chunk <= self.clip.data.len() {
                acked as nat + self.chunk
            } else {
                self.clip.data.len()
            },
        }
    }

    /// The frame that answers a direct read: the metadata frame while the
    /// peer is unconfirmed, else the data frame at the acknowledged offset;
    /// no longer than [`READ_LIMIT`]. Only a read is held to that limit: a
    /// push goes up to the transport's capacity.
    pub open spec fn read_frame(self) -> Seq<u8> {
        match self.progress {
            Progress::Unconfirmed => clipped(metadata_frame(self.clip), READ_LIMIT as nat),
            Progress::Confirmed { acked, sent } => data_frame(
                self.clip.data,
                acked,
                READ_LIMIT as nat,
            ),
        }
    }

    /// The frame by which a push announces the payload: the metadata frame,
    /// whole wherever one value of the transport holds it, which is the case
    /// for a MIME type of up to 472 bytes; cut off at the transport's
    /// capacity where it does not.
    pub open spec fn announcement(self) -> Seq<u8> {
        clipped(metadata_frame(self.clip), FRAME_CAPACITY as nat)
    }

    /// What a push has to do next.
    pub open spec fn next_push(self) -> PushView {
        match self.progress {
            Progress::Unconfirmed => PushView::Metadata(self.announcement()),
            Progress::Confirmed { acked, sent } => if sent < self.window_end() {
                PushView::Data(data_frame(self.clip.data, sent, self.frame_limit()))
            } else {
                PushView::Idle
            },
        }
    }

    /// The pusher after the data frame of [`Self::next_push`] was delivered:
    /// `sent` has moved behind the bytes of that frame. Unchanged where the
    /// next step is no data frame.
    pub open spec fn delivered(self) -> OutView {
        match self.progress {
            Progress::Unconfirmed => self,
            Progress::Confirmed { acked, sent } => if sent < self.window_end() {
                OutView {
                    progress: Progress::Confirmed {
                        acked,
                        sent: data_end(self.clip.data.len(), sent as nat, self.frame_limit()) as u32,
                    },
                    ..self
                }
            } else {
                self
            },
        }
    }

    /// The pusher after the peer's acknowledgement `frame`.
    ///
    /// A frame that is neither 4 nor 36 bytes long is no acknowledgement and
    /// changes nothing. While unconfirmed, only a 36-byte frame with the
    /// payload's hash and an offset inside the payload counts: it confirms
    /// the peer at that offset. Once confirmed, an offset past the payload
    /// (the reserved offset is one) or a 36-byte frame with another hash
    /// sends the pusher back to unconfirmed. Any other frame is an ordinary
    /// acknowledgement: an offset at or before the acknowledged one pulls
    /// `sent` back to it, a later one moves `sent` up if it was behind.
    pub open spec fn on_ack(self, frame: Seq<u8>) -> OutView {
        if !is_ack_frame(frame) {
            self
        } else {
            let offset = ack_offset(frame);
            let with_hash = frame.len() == ACK_WITH_HASH_LEN;
            match self.progress {
                Progress::Unconfirmed => if with_hash && offset <= self.clip.data.len()
                    && ack_hash(frame) == self.clip.hash {
                    OutView {
                        progress: Progress::Confirmed { acked: offset as u32, sent: offset as u32 },
                        ..self
                    }
                } else {
                    self
                },
                Progress::Confirmed { acked, sent } => if offset > self.clip.data.len() || (
                with_hash && ack_hash(frame) != self.clip.hash) {
                    OutView { progress: Progress::Unconfirmed, ..self }
                } else {
                    let pulled_back = if offset <= acked {
                        offset
                    } else {
                        sent as int
                    };
                    let sent_now = if pulled_back >= offset {
                        pulled_back
                    } else {
                        offset
                    };
                    OutView {
                        progress: Progress::Confirmed { acked: offset as u32, sent: sent_now as u32 },
                        ..self
                    }
                },
            }
        }
    }

    /// How many bytes of the payload have not been sent; all of them while
    /// the peer is unconfirmed.
    pub open spec fn unsent(self) -> nat {
        match self.progress {
            Progress::Unconfirmed => self.clip.data.len(),
            Progress::Confirmed { acked, sent } => (self.clip.data.len() - sent) as nat,
        }
    }

    /// The frames of one push in which the transport takes every frame, in
    /// the order in which they are sent.
    pub open spec fn push_frames(self) -> Seq<Seq<u8>>
        decreases self.unsent(),
        when self.inv()
    {
        match self.next_push() {
            PushView::Idle => Seq::empty(),
            PushView::Metadata(frame) => seq![frame],
            PushView::Data(frame) => seq![frame] + self.delivered().push_frames(),
        }
    }

    /// The pusher after such a push.
    pub open spec fn pushed(self) -> OutView
        decreases self.unsent(),
        when self.inv()
    {
        match self.next_push() {
            PushView::Idle => self,
            PushView::Metadata(frame) => self,
            PushView::Data(frame) => self.delivered().pushed(),
        }
    }

    /// The pusher with its chunk size one byte larger.
    pub open spec fn grown(self) -> OutView {
        OutView { chunk: self.chunk + 1, ..self }
    }

    /// Seven eighths of the chunk size, rounded down, but no less than the
    /// floor.
    pub open spec fn reduced_chunk(self) -> nat {
        if self.chunk * 7 / 8 >= MIN_NOTIFY_LEN {
            self.chunk * 7 / 8
        } else {
            MIN_NOTIFY_LEN as nat
        }
    }

    /// The pusher with its chunk size reduced, if it is at rest; unchanged
    /// in mid-transfer.
    pub open spec fn shrunk(self) -> OutView {
        if self.at_rest() {
            OutView { chunk: self.reduced_chunk(), ..self }
        } else {
            self
        }
    }
}

/// What a push has to do next, with the frame to hand to the transport.
pub enum Indication {
    /// Nothing to send.
    Idle,
    /// Send this metadata frame and stop, whether or not it was delivered.
    Metadata(AttValue),
    /// Send this data frame; if it was delivered, report it and ask again.
    Data(AttValue),
}

impl View for Indication {
    type V = PushView;

    open spec fn view(&self) -> PushView {
        match self {
            Indication::Idle => PushView::Idle,
            Indication::Metadata(v) => PushView::Metadata(att_bytes(*v)),
            Indication::Data(v) => PushView::Data(att_bytes(*v)),
        }
    }
}

/// Pushes one payload to the peer.
#[derive(Debug)]
pub struct OutSyncer {
    clip: Clip,
    progress: Progress,
    verbose: u8,
    notify_len: usize,
}

impl View for OutSyncer {
    type V = OutView;

    closed spec fn view(&self) -> OutView {
        OutView {
            clip: self.clip@,
            progress: self.progress,
            chunk: self.notify_len as nat,
            verbose: self.verbose,
        }
    }
}

/// Whether `data` has the length of an acknowledgement.
pub fn has_ack_len(data: &[u8]) -> (b: bool)
    ensures
        b == is_ack_frame(data@),
{
    data.len() == ACK_LEN || data.len() == ACK_WITH_HASH_LEN
}

impl OutSyncer {
    /// Holds of every pusher.
    #[verifier::type_invariant]
    pub open spec fn wf(&self) -> bool {
        self@.inv()
    }

    /// A pusher for `clip`: unconfirmed, with the smallest chunk size.
    ///
    /// The length of the payload must fit the 32-bit length field and be
    /// less than the reserved offset.
    pub fn new(clip: Clip, verbose: u8) -> (s: Self)
        requires
            clip@.data.len() < SENTINEL,
        ensures
            s@ == OutView::fresh(clip@, verbose),
    {
        proof {
            use_type_invariant(&clip);
        }
        OutSyncer { clip, progress: Progress::Unconfirmed, verbose, notify_len: MIN_NOTIFY_LEN }
    }

    /// A pusher for `clip`, if the wire can carry it: the payload is handed
    /// back where its length does not fit below the reserved offset.
    pub fn try_new(clip: Clip, verbose: u8) -> (r: Result<Self, Clip>)
        ensures
            match r {
                Ok(s) => clip@.data.len() < SENTINEL && s@ == OutView::fresh(clip@, verbose),
                Err(back) => clip@.data.len() >= SENTINEL && back@ == clip@,
            },
    {
        if (clip.len() as u64) < SENTINEL as u64 {
            Ok(OutSyncer::new(clip, verbose))
        } else {
            Err(clip)
        }
    }

    /// The bytes of the payload.
    pub fn get_buf(&self) -> (buf: &[u8])
        ensures
            buf@ == self@.clip.data,
    {
        self.clip.data()
    }

    /// The payload.
    pub fn get_clip(&self) -> (clip: &Clip)
        ensures
            clip@ == self@.clip,
    {
        &self.clip
    }

    /// How much the driver is to log.
    pub fn verbose(&self) -> (level: u8)
        ensures
            level == self@.verbose,
    {
        self.verbose
    }

    /// How far the peer has followed.
    pub fn progress(&self) -> (p: Progress)
        ensures
            p == self@.progress,
    {
        self.progress
    }

    /// Makes the chunk size one byte larger and returns it.
    pub fn increment_notify_len(&mut self) -> (len: usize)
        requires
            old(self)@.chunk < usize::MAX,
        ensures
            final(self)@ == old(self)@.grown(),
            len == final(self)@.chunk,
    {
        proof {
            use_type_invariant(&*self);
        }
        self.notify_len = self.notify_len + 1;
        self.notify_len
    }

    /// The chunk size.
    pub fn notify_len(&self) -> (len: usize)
        ensures
            len == self@.chunk,
    {
        self.notify_len
    }

    /// Reduces the chunk size to seven eighths, but not below the floor,
    /// and returns the size before and after. In mid-transfer nothing
    /// changes and `None` is returned.
    pub fn reduce_notify_len(&mut self) -> (r: Option<(usize, usize)>)
        ensures
            final(self)@ == old(self)@.shrunk(),
            match r {
                Some((before, after)) => old(self)@.at_rest() && before == old(self)@.chunk && after
                    == final(self)@.chunk,
                None => !old(self)@.at_rest(),
            },
    {
        proof {
            use_type_invariant(&*self);
        }
        let at_rest = match self.progress {
            Progress::Unconfirmed => true,
            Progress::Confirmed { acked, sent } => acked as usize == self.clip.len(),
        };
        if at_rest {
            let old_len = self.notify_len;
            let scaled = (old_len as u128 * 7 / 8) as usize;
            self.notify_len = if scaled >= MIN_NOTIFY_LEN {
                scaled
            } else {
                MIN_NOTIFY_LEN
            };
            Some((old_len, self.notify_len))
        } else {
            None
        }
    }

    /// Builds the frame for `loc`: the metadata frame for `None`, cut off
    /// after `max_len` bytes, or the data frame of at most `max_len` bytes
    /// at an offset.
    fn generate_char(&self, loc: Option<u32>, max_len: usize) -> (v: AttValue)
        requires
            METADATA_HEADER_LEN <= max_len <= FRAME_CAPACITY,
            loc matches Some(offset) ==> offset <= self@.clip.data.len(),
        ensures
            att_bytes(v) == match loc {
                None => clipped(metadata_frame(self@.clip), max_len as nat),
                Some(offset) => data_frame(self@.clip.data, offset, max_len as nat),
            },
    {
        proof {
            use_type_invariant(self);
        }
        let mut v = att_empty();
        match loc {
            None => {
                let offset_field = encode_be32(SENTINEL);
                att_extend(&mut v, offset_field.as_slice());
                let hash = self.clip.hash();
                att_extend(&mut v, hash.as_slice());
                let len_field = encode_be32(self.clip.len() as u32);
                att_extend(&mut v, len_field.as_slice());
                let mime = self.clip.mime().as_bytes();
                let room = max_len - METADATA_HEADER_LEN;
                let kept = if mime.len() <= room {
                    mime.len()
                } else {
                    room
                };
                att_extend(&mut v, slice_subrange(mime, 0, kept));
                assert(att_bytes(v) =~= clipped(metadata_frame(self@.clip), max_len as nat));
            },
            Some(offset) => {
                let offset_field = encode_be32(offset);
                att_extend(&mut v, offset_field.as_slice());
                let start = offset as usize;
                let room = max_len - DATA_HEADER_LEN;
                let end = if room <= self.clip.len() - start {
                    start + room
                } else {
                    self.clip.len()
                };
                att_extend(&mut v, slice_subrange(self.get_buf(), start, end));
            },
        }
        v
    }

    /// The frame that answers a direct read of the outbound channel: the
    /// metadata frame while the peer is unconfirmed, else the data frame at
    /// the acknowledged offset. It is at most [`READ_LIMIT`] bytes long; a
    /// MIME type too long for that is cut off.
    pub fn read_fn(&self) -> (v: AttValue)
        ensures
            att_bytes(v) == self@.read_frame(),
    {
        proof {
            use_type_invariant(self);
        }
        match self.progress {
            Progress::Unconfirmed => self.generate_char(None, READ_LIMIT),
            Progress::Confirmed { acked, sent } => self.generate_char(Some(acked), READ_LIMIT),
        }
    }

    /// The MIME type of the payload, as far as one value of the transport
    /// holds it.
    pub fn read_mime(&self) -> (v: AttValue)
        ensures
            att_bytes(v) == clipped(self@.clip.mime_bytes(), FRAME_CAPACITY as nat),
    {
        let mime = self.clip.mime().as_bytes();
        let kept = if mime.len() <= FRAME_CAPACITY {
            mime.len()
        } else {
            FRAME_CAPACITY
        };
        let v = att_from_slice(slice_subrange(mime, 0, kept));
        assert(att_bytes(v) =~= clipped(self@.clip.mime_bytes(), FRAME_CAPACITY as nat));
        v
    }

    /// The length of the payload as a big-endian 32-bit field.
    pub fn read_len(&self) -> (v: AttValue)
        ensures
            att_bytes(v) == be32(self@.clip.data.len() as u32),
    {
        proof {
            use_type_invariant(self);
        }
        let bytes = encode_be32(self.clip.len() as u32);
        att_from_slice(bytes.as_slice())
    }

    /// The hash of the payload.
    pub fn read_hash(&self) -> (v: AttValue)
        ensures
            att_bytes(v) == self@.clip.hash,
    {
        let hash = self.clip.hash();
        att_from_slice(hash.as_slice())
    }

    /// Largest data frame of a push, in bytes.
    fn frame_limit(&self) -> (limit: usize)
        ensures
            limit == self@.frame_limit(),
    {
        if self.notify_len <= FRAME_CAPACITY {
            self.notify_len
        } else {
            FRAME_CAPACITY
        }
    }

    /// Where `sent` stands once a data frame is due: `None` if none is.
    fn sent_after_next(&self) -> (end: Option<u32>)
        ensures
            end is Some <==> self@.next_push() is Data,
            end matches Some(sent) ==> self@.delivered().progress == (Progress::Confirmed {
                acked: self@.progress->acked,
                sent,
            }),
    {
        proof {
            use_type_invariant(self);
        }
        match self.progress {
            Progress::Unconfirmed => None,
            Progress::Confirmed { acked, sent } => {
                let len = self.clip.len();
                let in_flight = (sent - acked) as usize;
                if (sent as usize) < len && in_flight < self.notify_len {
                    let room = self.frame_limit() - DATA_HEADER_LEN;
                    if room <= len - sent as usize {
                        Some(sent + room as u32)
                    } else {
                        Some(len as u32)
                    }
                } else {
                    None
                }
            },
        }
    }

    /// What a push has to do next, with the frame to send. Nothing changes:
    /// asked again, the pusher gives the same answer until a delivery is
    /// reported or an acknowledgement arrives.
    pub fn next_indication(&self) -> (step: Indication)
        ensures
            step@ == self@.next_push(),
            self@.progress is Unconfirmed && METADATA_HEADER_LEN + self@.clip.mime_bytes().len()
                <= FRAME_CAPACITY ==> step@ == PushView::Metadata(metadata_frame(self@.clip)),
    {
        proof {
            use_type_invariant(self);
            lemma_metadata_frame_len(self@.clip);
        }
        match self.progress {
            Progress::Unconfirmed => Indication::Metadata(
                self.generate_char(None, FRAME_CAPACITY),
            ),
            Progress::Confirmed { acked, sent } => match self.sent_after_next() {
                Some(_) => Indication::Data(self.generate_char(Some(sent), self.frame_limit())),
                None => Indication::Idle,
            },
        }
    }

    /// Reports that the data frame of [`Self::next_indication`] was
    /// delivered: `sent` moves behind the bytes of that frame. Where the
    /// next step is no data frame, nothing changes.
    pub fn delivered(&mut self)
        ensures
            final(self)@ == old(self)@.delivered(),
    {
        proof {
            use_type_invariant(&*self);
        }
        match (self.progress, self.sent_after_next()) {
            (Progress::Confirmed { acked, sent }, Some(end)) => {
                self.progress = Progress::Confirmed { acked, sent: end };
            },
            _ => {},
        }
    }

    /// Applies an acknowledgement of the peer: see [`OutView::on_ack`].
    pub fn update_pos(&mut self, data: &[u8])
        ensures
            final(self)@ == old(self)@.on_ack(data@),
    {
        proof {
            use_type_invariant(&*self);
        }
        if !has_ack_len(data) {
            return ;
        }
        let cur_pos = decode_be32(data, 0);
        proof {
            lemma_be32_of_be32_value(data@.subrange(0, 4));
        }
        let with_hash = data.len() == ACK_WITH_HASH_LEN;
        let in_payload = cur_pos as usize <= self.clip.len();
        let hash = self.clip.hash();
        let same_hash = with_hash && bytes_equal(
            slice_subrange(data, ACK_LEN, ACK_WITH_HASH_LEN),
            hash.as_slice(),
        );
        match self.progress {
            Progress::Unconfirmed => {
                if in_payload && same_hash {
                    self.progress = Progress::Confirmed { acked: cur_pos, sent: cur_pos };
                }
            },
            Progress::Confirmed { acked, sent } => {
                if !in_payload || (with_hash && !same_hash) {
                    self.progress = Progress::Unconfirmed;
                } else if cur_pos <= acked || sent <= cur_pos {
                    self.progress = Progress::Confirmed { acked: cur_pos, sent: cur_pos };
                } else {
                    self.progress = Progress::Confirmed { acked: cur_pos, sent };
                }
            },
        }
    }
}

/// An acknowledgement leaves the pusher consistent: what is acknowledged
/// has been sent, and what has been sent is part of the payload.
pub proof fn lemma_ack_keeps_inv(s: OutView, frame: Seq<u8>)
    requires
        s.inv(),
    ensures
        s.on_ack(frame).inv(),
{
    if is_ack_frame(frame) {
        lemma_be32_of_be32_value(frame.subrange(0, ACK_LEN as int));
    }
}

/// An acknowledgement never moves `sent` past the later of its old place
/// and the acknowledged offset, which is as far as acknowledgements in
/// rising order take it. One that does not rise above the acknowledged
/// offset pulls `sent` back to its own offset.
pub proof fn lemma_ack_bounds_sent(s: OutView, frame: Seq<u8>)
    requires
        s.inv(),
        s.progress is Confirmed,
        s.on_ack(frame).progress is Confirmed,
        is_ack_frame(frame),
    ensures
        s.on_ack(frame).progress->acked == ack_offset(frame),
        s.on_ack(frame).progress->acked <= s.on_ack(frame).progress->sent,
        s.on_ack(frame).progress->sent <= s.progress->sent || s.on_ack(frame).progress->sent
            == ack_offset(frame),
        ack_offset(frame) <= s.progress->acked ==> s.on_ack(frame).progress->sent == ack_offset(
            frame,
        ) && s.on_ack(frame).progress->sent <= s.progress->sent,
        ack_offset(frame) > s.progress->acked ==> s.on_ack(frame).progress->sent >= s.progress->sent,
{
    lemma_be32_of_be32_value(frame.subrange(0, ACK_LEN as int));
}

/// The same acknowledgement a second time confirms the same offset and
/// does not move `sent` forward: it leaves `sent` at that offset.
pub proof fn lemma_ack_twice(s: OutView, frame: Seq<u8>)
    requires
        s.inv(),
        is_ack_frame(frame),
        s.on_ack(frame).progress is Confirmed,
    ensures
        s.on_ack(frame).on_ack(frame).progress is Confirmed,
        s.on_ack(frame).on_ack(frame).progress->acked == s.on_ack(frame).progress->acked,
        s.on_ack(frame).on_ack(frame).progress->sent <= s.on_ack(frame).progress->sent,
        s.on_ack(frame).on_ack(frame).progress->sent == s.on_ack(frame).progress->acked,
        s.on_ack(frame).on_ack(frame).on_ack(frame) == s.on_ack(frame).on_ack(frame),
{
    lemma_be32_of_be32_value(frame.subrange(0, ACK_LEN as int));
}

/// A metadata frame is as long as its fixed fields and the MIME type.
pub proof fn lemma_metadata_frame_len(clip: ClipView)
    requires
        clip.hash.len() == HASH_LEN,
    ensures
        metadata_frame(clip).len() == METADATA_HEADER_LEN + clip.mime_bytes().len(),
{
}

/// A push to an unconfirmed peer announces the payload, and nothing else.
/// Where the metadata frame fits one value of the transport, it is sent
/// whole, down to the last byte of the MIME type.
pub proof fn lemma_unconfirmed_push_announces(s: OutView)
    requires
        s.inv(),
        s.progress is Unconfirmed,
    ensures
        s.next_push() == PushView::Metadata(s.announcement()),
        s.push_frames() == seq![s.announcement()],
        s.pushed() == s,
        METADATA_HEADER_LEN + s.clip.mime_bytes().len() <= FRAME_CAPACITY ==> s.announcement()
            == metadata_frame(s.clip),
        METADATA_HEADER_LEN + s.clip.mime_bytes().len() > FRAME_CAPACITY ==> s.announcement()
            == metadata_frame(s.clip).take(FRAME_CAPACITY as int),
{
    lemma_metadata_frame_len(s.clip);
}

/// An acknowledgement that carries the hash of another payload, where that
/// hash differs from the hash of the payload being pushed, sends a
/// confirmed pusher back to unconfirmed: the next push announces the
/// payload being pushed with its metadata frame, whole where the transport
/// holds it, and sends no data.
pub proof fn lemma_other_hash_restarts(s: OutView, other: ClipView, frame: Seq<u8>)
    requires
        s.inv(),
        s.progress is Confirmed,
        frame.len() == ACK_WITH_HASH_LEN,
        ack_hash(frame) == other.hash,
        other.hash != s.clip.hash,
    ensures
        s.on_ack(frame).progress == Progress::Unconfirmed,
        s.on_ack(frame).clip == s.clip,
        s.on_ack(frame).next_push() == PushView::Metadata(s.announcement()),
        s.on_ack(frame).push_frames() == seq![s.announcement()],
        METADATA_HEADER_LEN + s.clip.mime_bytes().len() <= FRAME_CAPACITY ==> s.on_ack(
            frame,
        ).next_push() == PushView::Metadata(metadata_frame(s.clip)),
{
    lemma_ack_keeps_inv(s, frame);
    lemma_unconfirmed_push_announces(s.on_ack(frame));
}

} // verus!
