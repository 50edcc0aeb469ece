//! A whole transfer, end to end: what the frames of a pusher carry, and
//! what a reassembler makes of them.

use vstd::prelude::*;
use crate::digest::sha256_digest;
use crate::inbound::chunk_frame;
use crate::inbound::lemma_chunk_pending;
use crate::inbound::lemma_corrupted_rejected;
use crate::inbound::lemma_last_chunk_completes;
use crate::inbound::lemma_start_frame_fields;
use crate::inbound::start_frame;
use crate::inbound::InView;
use crate::inbound::Outcome;
use crate::outbound::OutView;
use crate::outbound::Progress;
use crate::outbound::DATA_HEADER_LEN;
use crate::wire::be32;
use crate::wire::be32_value;
use crate::wire::lemma_be32_value_of_be32;
use crate::wire::HASH_LEN;

verus! {

/// What the data frames `frames` carry, one after another: each frame
/// without its offset field.
pub open spec fn bodies(frames: Seq<Seq<u8>>) -> Seq<u8>
    decreases frames.len(),
{
    if frames.len() == 0 {
        Seq::empty()
    } else {
        frames[0].skip(DATA_HEADER_LEN as int) + bodies(frames.drop_first())
    }
}

/// `frames` are data frames that carry `data` from `from` up to `to` without
/// gap or overlap: each starts where the one before it ended, carries at
/// least one byte, and names its own start in its offset field.
pub open spec fn contiguous(data: Seq<u8>, frames: Seq<Seq<u8>>, from: nat, to: nat) -> bool
    decreases frames.len(),
{
    if frames.len() == 0 {
        from == to && to <= data.len()
    } else {
        let end = from + frames[0].len() - DATA_HEADER_LEN;
        &&& from < end <= to
        &&& to <= data.len()
        &&& from <= u32::MAX
        &&& frames[0] == be32(from as u32) + data.subrange(from as int, end)
        &&& contiguous(data, frames.drop_first(), end as nat, to)
    }
}

/// The data frame of a pusher, framed anew for a reassembler: the same
/// offset, the length of what it carries, and what it carries.
pub open spec fn as_chunk(frame: Seq<u8>) -> Seq<u8>
    recommends
        frame.len() >= DATA_HEADER_LEN,
{
    chunk_frame(
        be32_value(frame.take(DATA_HEADER_LEN as int)) as u32,
        frame.skip(DATA_HEADER_LEN as int),
    )
}

/// The reassembler after the data frames `frames` have been passed on to
/// it, each framed anew as a chunk, and what the last of them led to.
pub open spec fn relay(s: InView, frames: Seq<Seq<u8>>) -> (InView, Outcome)
    decreases frames.len(),
{
    if frames.len() == 0 {
        (s, Outcome::Pending)
    } else if frames.len() == 1 {
        s.accept(as_chunk(frames[0]))
    } else {
        relay(s.accept(as_chunk(frames[0])).0, frames.drop_first())
    }
}

/// The acknowledgement of `offset` in its short form.
pub open spec fn ack_frame(offset: u32) -> Seq<u8> {
    be32(offset)
}

/// The data frames of a whole transfer to a peer that acknowledges, after
/// each push, everything that was sent; from a pusher that is confirmed and
/// has sent nothing past the acknowledged offset.
pub open spec fn transfer_frames(s: OutView) -> Seq<Seq<u8>>
    decreases s.unsent(),
    when s.inv() && s.progress is Confirmed && s.progress->acked == s.progress->sent
{
    if s.unsent() == 0 {
        Seq::empty()
    } else {
        proof {
            lemma_push(s);
            lemma_ack_of_sent(s.pushed());
        }
        s.push_frames() + transfer_frames(s.pushed().on_ack(ack_frame(s.pushed().progress->sent)))
    }
}

/// One delivered data frame: it carries at least one byte, starts at `sent`
/// and moves `sent` to its end.
pub proof fn lemma_delivered(s: OutView)
    requires
        s.inv(),
        s.next_push() is Data,
    ensures
        s.progress is Confirmed,
        s.delivered().inv(),
        s.delivered().progress is Confirmed,
        s.delivered().progress->acked == s.progress->acked,
        s.delivered().progress->sent > s.progress->sent,
        s.delivered().clip == s.clip,
        s.delivered().chunk == s.chunk,
        s.next_push()->Data_0.len() == DATA_HEADER_LEN + s.delivered().progress->sent
            - s.progress->sent,
        s.next_push()->Data_0.len() <= s.frame_limit(),
        s.next_push()->Data_0 == be32(s.progress->sent) + s.clip.data.subrange(
            s.progress->sent as int,
            s.delivered().progress->sent as int,
        ),
{
}

/// One push: its frames carry the payload from `sent` on, without gap or
/// overlap, up to where `sent` stands afterwards, which is at or past the
/// end of the window. Nothing else changes, and nothing is left to push.
pub proof fn lemma_push(s: OutView)
    requires
        s.inv(),
        s.progress is Confirmed,
    ensures
        s.pushed().inv(),
        s.pushed().progress is Confirmed,
        s.pushed().progress->acked == s.progress->acked,
        s.pushed().progress->sent >= s.progress->sent,
        s.pushed().progress->sent >= s.window_end(),
        s.progress->sent < s.window_end() ==> s.pushed().progress->sent > s.progress->sent,
        s.pushed().clip == s.clip,
        s.pushed().chunk == s.chunk,
        s.pushed().verbose == s.verbose,
        s.pushed().next_push() is Idle,
        contiguous(
            s.clip.data,
            s.push_frames(),
            s.progress->sent as nat,
            s.pushed().progress->sent as nat,
        ),
    decreases s.unsent(),
{
    if s.next_push() is Data {
        lemma_delivered(s);
        let next = s.delivered();
        lemma_push(next);
        let frames = s.push_frames();
        assert(frames.drop_first() =~= next.push_frames());
        assert(next.window_end() == s.window_end());
    }
}

/// The acknowledgement of everything sent brings a confirmed pusher to
/// that offset, acknowledged and sent.
pub proof fn lemma_ack_of_sent(s: OutView)
    requires
        s.inv(),
        s.progress is Confirmed,
    ensures
        s.on_ack(ack_frame(s.progress->sent)) == (OutView {
            progress: Progress::Confirmed { acked: s.progress->sent, sent: s.progress->sent },
            ..s
        }),
        s.on_ack(ack_frame(s.progress->sent)).inv(),
{
    let frame = ack_frame(s.progress->sent);
    lemma_be32_value_of_be32(s.progress->sent);
    assert(frame.subrange(0, 4) =~= frame);
}

/// Frames that carry a range without gap or overlap, followed by frames
/// that carry the range behind it, carry both ranges.
pub proof fn lemma_contiguous_append(
    data: Seq<u8>,
    first: Seq<Seq<u8>>,
    second: Seq<Seq<u8>>,
    from: nat,
    mid: nat,
    to: nat,
)
    requires
        contiguous(data, first, from, mid),
        contiguous(data, second, mid, to),
    ensures
        contiguous(data, first + second, from, to),
    decreases first.len(),
{
    lemma_contiguous_range(data, second, mid, to);
    if first.len() == 0 {
        assert(first + second =~= second);
    } else {
        let end = (from + first[0].len() - DATA_HEADER_LEN) as nat;
        lemma_contiguous_append(data, first.drop_first(), second, end, mid, to);
        assert((first + second).drop_first() =~= first.drop_first() + second);
    }
}

/// Frames carry a range of the payload only if the range lies in it.
pub proof fn lemma_contiguous_range(data: Seq<u8>, frames: Seq<Seq<u8>>, from: nat, to: nat)
    requires
        contiguous(data, frames, from, to),
    ensures
        from <= to <= data.len(),
        frames.len() > 0 ==> from < to,
    decreases frames.len(),
{
    if frames.len() > 0 {
        let end = (from + frames[0].len() - DATA_HEADER_LEN) as nat;
        lemma_contiguous_range(data, frames.drop_first(), end, to);
    }
}

/// What frames without gap or overlap carry, put together, is the range of
/// the payload that they cover.
pub proof fn lemma_contiguous_bodies(data: Seq<u8>, frames: Seq<Seq<u8>>, from: nat, to: nat)
    requires
        contiguous(data, frames, from, to),
    ensures
        bodies(frames) == data.subrange(from as int, to as int),
    decreases frames.len(),
{
    lemma_contiguous_range(data, frames, from, to);
    if frames.len() == 0 {
        assert(bodies(frames) =~= data.subrange(from as int, to as int));
    } else {
        let end = (from + frames[0].len() - DATA_HEADER_LEN) as nat;
        lemma_contiguous_bodies(data, frames.drop_first(), end, to);
        lemma_contiguous_range(data, frames.drop_first(), end, to);
        assert(frames[0].skip(DATA_HEADER_LEN as int) =~= data.subrange(from as int, end as int));
        assert(bodies(frames) =~= data.subrange(from as int, to as int));
    }
}

/// The frames of a whole transfer carry the payload from the confirmed
/// offset to its end, without gap or overlap.
pub proof fn lemma_transfer_contiguous(s: OutView)
    requires
        s.inv(),
        s.progress is Confirmed,
        s.progress->acked == s.progress->sent,
    ensures
        contiguous(
            s.clip.data,
            transfer_frames(s),
            s.progress->sent as nat,
            s.clip.data.len(),
        ),
    decreases s.unsent(),
{
    if s.unsent() != 0 {
        lemma_push(s);
        let pushed = s.pushed();
        lemma_ack_of_sent(pushed);
        let next = pushed.on_ack(ack_frame(pushed.progress->sent));
        lemma_transfer_contiguous(next);
        lemma_contiguous_append(
            s.clip.data,
            s.push_frames(),
            transfer_frames(next),
            s.progress->sent as nat,
            pushed.progress->sent as nat,
            s.clip.data.len(),
        );
    }
}

/// Framing round trip. A peer confirms a payload at some offset and then
/// acknowledges, after each push, everything that was sent. Whatever the
/// chunk size, the data frames of all the pushes, taken in the order in
/// which they were sent and without their offset fields, are the bytes of
/// the payload from that offset on: all of it, if the offset was 0.
pub proof fn lemma_transfer_reconstructs(s: OutView)
    requires
        s.inv(),
        s.progress is Confirmed,
        s.progress->acked == s.progress->sent,
    ensures
        bodies(transfer_frames(s)) == s.clip.data.skip(s.progress->sent as int),
        s.progress->sent == 0 ==> bodies(transfer_frames(s)) == s.clip.data,
{
    lemma_transfer_contiguous(s);
    lemma_contiguous_bodies(
        s.clip.data,
        transfer_frames(s),
        s.progress->sent as nat,
        s.clip.data.len(),
    );
    assert(s.clip.data.skip(0) =~= s.clip.data);
}

/// Passing frames on that carry, without gap or overlap, the range of
/// `data` behind what a reassembler holds, to a reassembler that expects as
/// many bytes as `data` has. While the range falls short of the end, the
/// reassembler holds `data` up to the end of the range and the last frame
/// is pending. Where the range reaches the end, the last frame completes
/// `data` if `data` hashes to the announced hash; if not, it is rejected
/// and the buffer dropped.
pub proof fn lemma_relay_contiguous(t: InView, data: Seq<u8>, frames: Seq<Seq<u8>>, from: nat, to: nat)
    requires
        t.inv(),
        t.expected == data.len(),
        from <= data.len(),
        t.buf == data.take(from as int),
        contiguous(data, frames, from, to),
        frames.len() > 0,
    ensures
        to < data.len() ==> relay(t, frames) == (
            InView { buf: data.take(to as int), ..t },
            Outcome::Pending,
        ),
        to == data.len() && sha256_digest(data) == t.hash ==> relay(t, frames) == (
            InView { buf: data, ..t },
            Outcome::Completed(data),
        ),
        to == data.len() && sha256_digest(data) != t.hash ==> relay(t, frames) == (
            InView { buf: Seq::empty(), ..t },
            Outcome::Rejected,
        ),
    decreases frames.len(),
{
    let end = (from + frames[0].len() - DATA_HEADER_LEN) as nat;
    let body = data.subrange(from as int, end as int);
    let rest = frames.drop_first();
    let after = InView { buf: data.take(end as int), ..t };
    lemma_contiguous_range(data, rest, end, to);
    assert(as_chunk(frames[0]) == chunk_frame(from as u32, body)) by {
        lemma_be32_value_of_be32(from as u32);
        assert(frames[0].take(DATA_HEADER_LEN as int) =~= be32(from as u32));
        assert(frames[0].skip(DATA_HEADER_LEN as int) =~= body);
    }
    assert(t.buf + body == data.take(end as int)) by {
        assert(t.buf + body =~= data.take(end as int));
    }
    assert(contiguous(data, rest, end, to));
    if end < data.len() {
        lemma_chunk_pending(t, from as u32, body);
        assert(rest.len() > 0 ==> t.accept(as_chunk(frames[0])).0 == after);
        if rest.len() > 0 {
            lemma_relay_contiguous(after, data, rest, end, to);
        }
    } else {
        assert(rest.len() == 0);
        assert(data.take(end as int) =~= data);
        if sha256_digest(data) == t.hash {
            lemma_last_chunk_completes(t, from as u32, body);
        } else {
            lemma_corrupted_rejected(t, from as u32, body);
        }
    }
}

/// Reassembly. A peer that is sent a start frame with the length and the
/// hash of a payload, and then the data frames of a whole transfer of that
/// payload from offset 0, each framed anew as a chunk, ends with the
/// payload completed: the bytes handed out are the bytes of the payload.
/// For an empty payload there are no data frames, and the start frame
/// itself completes it.
pub proof fn lemma_transfer_reassembles(s: OutView, t: InView)
    requires
        s.inv(),
        s.progress == (Progress::Confirmed { acked: 0, sent: 0 }),
    ensures
        s.clip.data.len() == 0 ==> transfer_frames(s).len() == 0 && t.accept(
            start_frame(0, s.clip.hash),
        ).1 == Outcome::Completed(s.clip.data),
        s.clip.data.len() > 0 ==> t.accept(
            start_frame(s.clip.data.len() as u32, s.clip.hash),
        ).1 == Outcome::Pending && relay(
            t.accept(start_frame(s.clip.data.len() as u32, s.clip.hash)).0,
            transfer_frames(s),
        ).1 == Outcome::Completed(s.clip.data),
{
    let data = s.clip.data;
    let len = data.len() as u32;
    lemma_start_frame_fields(len, s.clip.hash);
    let started = t.accept(start_frame(len, s.clip.hash)).0;
    assert(data.take(0) =~= Seq::<u8>::empty());
    if data.len() == 0 {
        assert(data =~= Seq::<u8>::empty());
    } else {
        lemma_transfer_contiguous(s);
        lemma_contiguous_range(data, transfer_frames(s), 0, data.len());
        assert(transfer_frames(s).len() > 0) by {
            if transfer_frames(s).len() == 0 {
                assert(contiguous(data, transfer_frames(s), 0, data.len()));
            }
        }
        lemma_relay_contiguous(started, data, transfer_frames(s), 0, data.len());
    }
}

/// Corruption. A peer is sent a start frame that announces `hash` and the
/// length of `received`, and then chunks that carry `received` from offset
/// 0 to its end. If `received` does not hash to `hash`, as when a byte of
/// an announced payload was changed on the way and the digest shows it,
/// every chunk but the last is taken in as pending, and the last one is
/// rejected, with the buffer dropped.
pub proof fn lemma_corrupted_transfer_rejected(
    t: InView,
    hash: Seq<u8>,
    received: Seq<u8>,
    frames: Seq<Seq<u8>>,
    taken: int,
)
    requires
        hash.len() == HASH_LEN,
        0 < received.len() <= u32::MAX,
        contiguous(received, frames, 0, received.len()),
        sha256_digest(received) != hash,
        0 < taken < frames.len(),
    ensures
        t.accept(start_frame(received.len() as u32, hash)).1 == Outcome::Pending,
        relay(t.accept(start_frame(received.len() as u32, hash)).0, frames.take(taken)).1
            == Outcome::Pending,
        relay(t.accept(start_frame(received.len() as u32, hash)).0, frames) == (
            InView { hash, expected: received.len(), buf: Seq::empty() },
            Outcome::Rejected,
        ),
{
    lemma_start_frame_fields(received.len() as u32, hash);
    let started = t.accept(start_frame(received.len() as u32, hash)).0;
    assert(received.take(0) =~= Seq::<u8>::empty());
    lemma_relay_contiguous(started, received, frames, 0, received.len());
    let mid = lemma_contiguous_split(received, frames, 0, received.len(), taken);
    lemma_contiguous_range(received, frames.skip(taken), mid, received.len());
    lemma_relay_contiguous(started, received, frames.take(taken), 0, mid);
}

/// Frames that carry a range without gap or overlap, cut in two: the first
/// part carries the range up to some point, the second part the rest.
pub proof fn lemma_contiguous_split(
    data: Seq<u8>,
    frames: Seq<Seq<u8>>,
    from: nat,
    to: nat,
    at: int,
) -> (mid: nat)
    requires
        contiguous(data, frames, from, to),
        0 <= at <= frames.len(),
    ensures
        contiguous(data, frames.take(at), from, mid),
        contiguous(data, frames.skip(at), mid, to),
    decreases at,
{
    lemma_contiguous_range(data, frames, from, to);
    if at == 0 {
        assert(frames.skip(0) =~= frames);
        assert(frames.take(0).len() == 0);
        from
    } else {
        let end = (from + frames[0].len() - DATA_HEADER_LEN) as nat;
        let mid = lemma_contiguous_split(data, frames.drop_first(), end, to, at - 1);
        lemma_contiguous_range(data, frames.drop_first().take(at - 1), end, mid);
        assert(frames.take(at).drop_first() =~= frames.drop_first().take(at - 1));
        assert(frames.skip(at) =~= frames.drop_first().skip(at - 1));
        assert(frames.take(at)[0] == frames[0]);
        mid
    }
}

} // verus!
