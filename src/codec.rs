//! Framed mode: each chunk of relayed bytes travels as one frame,
//! `[port: u16 LE][size: u64 LE][size payload bytes]`.

use vstd::prelude::*;
use bytes::BytesMut;
use crate::buffer::{buf_bytes, buf_from_slice, buf_into_vec};
use crate::wire::{
    le_bytes, le_value, lemma_le_bytes_len, lemma_le_round_trip, lemma_le_value_bound,
    lemma_pow256_small, read_le, write_le,
};

verus! {

/// Bytes in a frame's header.
pub const FRAME_HEADER_LEN: usize = 10;

/// One frame: a logical port and the payload sent for it.
#[derive(Debug, PartialEq, Eq)]
pub struct Message {
    pub port: u16,
    pub size: u64,
    pub payload: BytesMut,
}

/// A frame's port, declared size and payload bytes.
pub type MessageView = (u16, u64, Seq<u8>);

impl Message {
    pub open spec fn view(&self) -> MessageView {
        (self.port, self.size, buf_bytes(self.payload))
    }

    /// The declared size is the payload's length.
    pub open spec fn wf(&self) -> bool {
        self.size == buf_bytes(self.payload).len()
    }

    pub fn new(port: u16, payload: &[u8]) -> (r: Self)
        ensures
            r.wf(),
            r.view() == (port, payload@.len() as u64, payload@),
    {
        Message { port, size: payload.len() as u64, payload: buf_from_slice(payload) }
    }
}

/// The bytes of one frame.
pub open spec fn frame_bytes(port: u16, size: u64, payload: Seq<u8>) -> Seq<u8> {
    le_bytes(port as nat, 2) + le_bytes(size as nat, 8) + payload
}

/// One decoding step: from the pending header (if any) and the buffered bytes,
/// the new pending header, what stays buffered, and the frame completed (if any).
pub open spec fn decode_step(pending: Option<(u16, u64)>, buf: Seq<u8>) -> (
    Option<(u16, u64)>,
    Seq<u8>,
    Option<MessageView>,
) {
    let (head, rest) = match pending {
        Some(h) => (Some(h), buf),
        None => if buf.len() < FRAME_HEADER_LEN {
            (None, buf)
        } else {
            (
                Some((le_value(buf.take(2)) as u16, le_value(buf.subrange(2, 10)) as u64)),
                buf.skip(10),
            )
        },
    };
    match head {
        None => (None, rest, None),
        Some((port, size)) => if rest.len() < size {
            (Some((port, size)), rest, None)
        } else {
            (None, rest.skip(size as int), Some((port, size, rest.take(size as int))))
        },
    }
}

/// Feeds `input` to a fresh decoder one byte at a time, decoding after each
/// byte: the pending header, what stays buffered, and the frames emitted.
pub open spec fn feed_bytewise(input: Seq<u8>) -> (Option<(u16, u64)>, Seq<u8>, Seq<MessageView>)
    decreases input.len(),
{
    if input.len() == 0 {
        (None, seq![], seq![])
    } else {
        let (pending, buf, out) = feed_bytewise(input.drop_last());
        let (pending2, buf2, m) = decode_step(pending, buf.push(input.last()));
        (
            pending2,
            buf2,
            match m {
                Some(x) => out.push(x),
                None => out,
            },
        )
    }
}

pub open spec fn message_view(m: Option<Message>) -> Option<MessageView> {
    match m {
        Some(x) => Some(x.view()),
        None => None,
    }
}

proof fn lemma_frame_header(port: u16, payload: Seq<u8>)
    requires
        payload.len() <= u64::MAX,
    ensures
        ({
            let f = frame_bytes(port, payload.len() as u64, payload);
            &&& f.len() == 10 + payload.len()
            &&& le_value(f.take(2)) == port
            &&& le_value(f.subrange(2, 10)) == payload.len()
            &&& f.skip(10) == payload
        }),
{
    let size = payload.len() as u64;
    let f = frame_bytes(port, size, payload);
    lemma_pow256_small();
    lemma_le_bytes_len(port as nat, 2);
    lemma_le_bytes_len(size as nat, 8);
    assert(f.take(2) =~= le_bytes(port as nat, 2));
    assert(f.subrange(2, 10) =~= le_bytes(size as nat, 8));
    assert(f.skip(10) =~= payload);
    lemma_le_round_trip(port as nat, 2);
    lemma_le_round_trip(size as nat, 8);
}

/// Decoding the bytes of a frame, whatever follows them, gives back that
/// frame's port, size and payload, and leaves the following bytes buffered.
pub proof fn lemma_frame_round_trip(port: u16, payload: Seq<u8>, rest: Seq<u8>)
    requires
        payload.len() <= u64::MAX,
    ensures
        decode_step(None, frame_bytes(port, payload.len() as u64, payload) + rest) == (
            None::<(u16, u64)>,
            rest,
            Some::<MessageView>((port, payload.len() as u64, payload)),
        ),
{
    let size = payload.len() as u64;
    let f = frame_bytes(port, size, payload);
    let b = f + rest;
    lemma_frame_header(port, payload);
    assert(b.take(2) =~= f.take(2));
    assert(b.subrange(2, 10) =~= f.subrange(2, 10));
    let r = b.skip(10);
    assert(r =~= payload + rest);
    assert(r.take(size as int) =~= payload);
    assert(r.skip(size as int) =~= rest);
}

/// After `k` bytes of a frame have been fed one at a time, nothing has been
/// emitted until the last byte.
proof fn lemma_feed_prefix(port: u16, payload: Seq<u8>, k: int)
    requires
        payload.len() <= u64::MAX,
        0 <= k <= 10 + payload.len(),
    ensures
        ({
            let size = payload.len() as u64;
            let f = frame_bytes(port, size, payload);
            let st = feed_bytewise(f.take(k));
            if k == f.len() {
                st == (None::<(u16, u64)>, Seq::<u8>::empty(), seq![(port, size, payload)])
            } else if k < 10 {
                st == (None::<(u16, u64)>, f.take(k), Seq::<MessageView>::empty())
            } else {
                st == (Some((port, size)), f.subrange(10, k), Seq::<MessageView>::empty())
            }
        }),
    decreases k,
{
    let size = payload.len() as u64;
    let f = frame_bytes(port, size, payload);
    lemma_frame_header(port, payload);
    if k == 0 {
        assert(f.take(0) =~= Seq::<u8>::empty());
    } else {
        lemma_feed_prefix(port, payload, k - 1);
        let input = f.take(k);
        assert(input.drop_last() =~= f.take(k - 1));
        let (pending, buf, out) = feed_bytewise(f.take(k - 1));
        let fed = buf.push(input.last());
        if k < 10 {
            assert(fed =~= f.take(k));
        } else if k == 10 {
            assert(fed =~= f.take(10));
            assert(fed.take(2) =~= f.take(2));
            assert(fed.subrange(2, 10) =~= f.subrange(2, 10));
            assert(fed.skip(10) =~= Seq::<u8>::empty());
            assert(f.subrange(10, 10) =~= Seq::<u8>::empty());
            if size == 0 {
                assert(payload =~= Seq::<u8>::empty());
                assert(Seq::<u8>::empty().take(0) =~= Seq::<u8>::empty());
                assert(Seq::<u8>::empty().skip(0) =~= Seq::<u8>::empty());
                assert(out.push((port, size, payload)) =~= seq![(port, size, payload)]);
            }
        } else {
            assert(fed =~= f.subrange(10, k));
            if k == f.len() {
                assert(fed =~= payload);
                assert(fed.take(size as int) =~= payload);
                assert(fed.skip(size as int) =~= Seq::<u8>::empty());
                assert(out.push((port, size, payload)) =~= seq![(port, size, payload)]);
            }
        }
    }
}

/// Fed one byte at a time, a fresh decoder emits exactly the frame, once, and
/// is left with nothing pending or buffered.
pub proof fn lemma_frame_bytewise(port: u16, payload: Seq<u8>)
    requires
        payload.len() <= u64::MAX,
    ensures
        feed_bytewise(frame_bytes(port, payload.len() as u64, payload)) == (
            None::<(u16, u64)>,
            Seq::<u8>::empty(),
            seq![(port, payload.len() as u64, payload)],
        ),
{
    let f = frame_bytes(port, payload.len() as u64, payload);
    lemma_frame_header(port, payload);
    lemma_feed_prefix(port, payload, f.len() as int);
    assert(f.take(f.len() as int) =~= f);
}

/// Once a fresh decoder has fed `a` byte by byte and is left idle with
/// nothing buffered, feeding `b` afterwards goes on as if it started afresh.
proof fn lemma_feed_concat(a: Seq<u8>, b: Seq<u8>)
    requires
        feed_bytewise(a).0 is None,
        feed_bytewise(a).1 == Seq::<u8>::empty(),
    ensures
        feed_bytewise(a + b) == (
            feed_bytewise(b).0,
            feed_bytewise(b).1,
            feed_bytewise(a).2 + feed_bytewise(b).2,
        ),
    decreases b.len(),
{
    if b.len() == 0 {
        assert(a + b =~= a);
        assert(feed_bytewise(a).2 + Seq::<MessageView>::empty() =~= feed_bytewise(a).2);
    } else {
        assert((a + b).drop_last() =~= a + b.drop_last());
        assert((a + b).last() == b.last());
        lemma_feed_concat(a, b.drop_last());
        let out_a = feed_bytewise(a).2;
        let out_b = feed_bytewise(b.drop_last()).2;
        let (_, buf, _) = feed_bytewise(b.drop_last());
        match decode_step(feed_bytewise(b.drop_last()).0, buf.push(b.last())).2 {
            Some(x) => {
                assert(out_a + out_b.push(x) =~= (out_a + out_b).push(x));
            },
            None => {},
        }
    }
}

/// The bytes sent for `chunks`, one frame each, all tagged with `port`.
pub open spec fn frames_for(port: u16, chunks: Seq<Seq<u8>>) -> Seq<u8>
    decreases chunks.len(),
{
    if chunks.len() == 0 {
        seq![]
    } else {
        frame_bytes(port, chunks[0].len() as u64, chunks[0]) + frames_for(port, chunks.drop_first())
    }
}

/// The frames that a fresh decoder takes off `buf` by decoding repeatedly,
/// at most `n` of them, stopping at the first call that completes none.
pub open spec fn decode_frames(buf: Seq<u8>, n: nat) -> Seq<MessageView>
    decreases n,
{
    if n == 0 {
        seq![]
    } else {
        match decode_step(None, buf).2 {
            Some(m) => seq![m] + decode_frames(decode_step(None, buf).1, (n - 1) as nat),
            None => seq![],
        }
    }
}

/// Chunks relayed as frames are decoded on the far side as the same chunks,
/// in the same order, each with its port and length.
pub proof fn lemma_frames_fidelity(port: u16, chunks: Seq<Seq<u8>>)
    requires
        forall|i: int| 0 <= i < chunks.len() ==> #[trigger] chunks[i].len() <= u64::MAX,
    ensures
        decode_frames(frames_for(port, chunks), chunks.len()) == chunks.map_values(
            |c: Seq<u8>| (port, c.len() as u64, c),
        ),
    decreases chunks.len(),
{
    let want = chunks.map_values(|c: Seq<u8>| (port, c.len() as u64, c));
    if chunks.len() == 0 {
        assert(want =~= Seq::<MessageView>::empty());
    } else {
        let c = chunks[0];
        let rest = chunks.drop_first();
        assert forall|i: int| 0 <= i < rest.len() implies #[trigger] rest[i].len() <= u64::MAX by {
            assert(rest[i] == chunks[i + 1]);
        }
        lemma_frame_round_trip(port, c, frames_for(port, rest));
        lemma_frames_fidelity(port, rest);
        assert(want =~= seq![(port, c.len() as u64, c)] + rest.map_values(
            |c: Seq<u8>| (port, c.len() as u64, c),
        ));
    }
}

/// Fed one byte at a time, a fresh decoder emits every frame of a frame
/// stream, in order and each exactly once, and ends idle with nothing buffered.
pub proof fn lemma_frames_bytewise(port: u16, chunks: Seq<Seq<u8>>)
    requires
        forall|i: int| 0 <= i < chunks.len() ==> #[trigger] chunks[i].len() <= u64::MAX,
    ensures
        feed_bytewise(frames_for(port, chunks)) == (
            None::<(u16, u64)>,
            Seq::<u8>::empty(),
            chunks.map_values(|c: Seq<u8>| (port, c.len() as u64, c)),
        ),
    decreases chunks.len(),
{
    let want = chunks.map_values(|c: Seq<u8>| (port, c.len() as u64, c));
    if chunks.len() == 0 {
        assert(want =~= Seq::<MessageView>::empty());
    } else {
        let c = chunks[0];
        let rest = chunks.drop_first();
        assert forall|i: int| 0 <= i < rest.len() implies #[trigger] rest[i].len() <= u64::MAX by {
            assert(rest[i] == chunks[i + 1]);
        }
        lemma_frame_bytewise(port, c);
        lemma_frames_bytewise(port, rest);
        lemma_feed_concat(frame_bytes(port, c.len() as u64, c), frames_for(port, rest));
        assert(want =~= seq![(port, c.len() as u64, c)] + rest.map_values(
            |c: Seq<u8>| (port, c.len() as u64, c),
        ));
    }
}

/// The decoder and encoder of one connection's frame stream.
pub struct Codec {
    msg: Option<(u16, u64)>,
}

impl Codec {
    /// The header of the frame whose payload is still awaited.
    pub closed spec fn view(&self) -> Option<(u16, u64)> {
        self.msg
    }

    pub fn new() -> (r: Self)
        ensures
            r.view() is None,
    {
        Codec { msg: None }
    }

    /// Takes the next complete frame off the front of `src`, or keeps what
    /// is there and waits for more bytes.
    pub fn decode(&mut self, src: &mut BytesMut) -> (r: Option<Message>)
        ensures
            decode_step(old(self).view(), buf_bytes(*old(src))) == (
                final(self).view(),
                buf_bytes(*final(src)),
                message_view(r),
            ),
            r matches Some(m) ==> m.wf(),
    {
        if self.msg.is_none() {
            if src.len() < FRAME_HEADER_LEN {
                return None;
            }
            let ghost whole = buf_bytes(*src);
            let header = src.split_to(FRAME_HEADER_LEN);
            let hv = buf_into_vec(header);
            let port = read_le(hv.as_slice(), 0, 2);
            let size = read_le(hv.as_slice(), 2, 8);
            proof {
                assert(hv@.subrange(0, 2) =~= whole.take(2));
                assert(hv@.take(2) =~= whole.take(2));
                assert(hv@.subrange(2, 10) =~= whole.subrange(2, 10));
                lemma_le_value_bound(hv@.take(2));
                lemma_pow256_small();
            }
            self.msg = Some((port as u16, size));
        }
        match self.msg {
            Some((port, size)) => {
                if (src.len() as u64) < size {
                    None
                } else {
                    let payload = src.split_to(size as usize);
                    self.msg = None;
                    Some(Message { port, size, payload })
                }
            },
            None => None,
        }
    }

    /// Appends `item` to `dst` as one frame.
    pub fn encode(&mut self, item: Message, dst: &mut BytesMut)
        requires
            item.wf(),
            buf_bytes(*old(dst)).len() + FRAME_HEADER_LEN + buf_bytes(item.payload).len()
                <= isize::MAX,
        ensures
            final(self).view() == old(self).view(),
            buf_bytes(*final(dst)) == buf_bytes(*old(dst)) + frame_bytes(
                item.port,
                item.size,
                buf_bytes(item.payload),
            ),
    {
        let mut head: Vec<u8> = Vec::new();
        proof {
            lemma_pow256_small();
        }
        write_le(&mut head, item.port as u64, 2);
        write_le(&mut head, item.size, 8);
        proof {
            lemma_le_bytes_len(item.port as nat, 2);
            lemma_le_bytes_len(item.size as nat, 8);
        }
        dst.extend_from_slice(head.as_slice());
        dst.unsplit(item.payload);
        proof {
            assert(buf_bytes(*dst) =~= buf_bytes(*old(dst)) + frame_bytes(
                item.port,
                item.size,
                buf_bytes(item.payload),
            ));
        }
    }
}

} // verus!
