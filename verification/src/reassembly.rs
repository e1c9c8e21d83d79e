//! Bridging frames and transport reads/writes. Outbound, an encoded frame
//! is split into bounded chunks; inbound, successive reads are folded into
//! a growing buffer from which every complete frame is drained, however the
//! chunk boundaries fell.

use vstd::prelude::*;

use crate::error::ProtocolError;
use crate::message::{
    lemma_decode_frame_with_trailing, lemma_message_round_trip, lemma_prefix_incomplete,
    spec_decode_message, spec_encode_message, Message, MessageModel, HEADER_LENGTH,
};

verus! {

/// The maximum size of a single transport write, in bytes. A write
/// granularity only: frame boundaries come from the header's length field,
/// never from chunk boundaries.
pub const CHUNK_SIZE: usize = 512;

/// What draining a buffer yields: every complete frame in order plus the
/// retained tail, or the fatal error of the first malformed frame.
#[verifier::ext_equal]
pub enum DrainOutcome {
    /// All complete frames at the front of the buffer, in arrival order,
    /// and the remaining bytes, which form no complete frame.
    Complete { msgs: Seq<MessageModel>, rest: Seq<u8> },
    /// A frame at the front of the buffer is malformed; the stream is torn
    /// down.
    Fatal { err: ProtocolError },
}

/// Prefix already-drained messages onto the outcome of draining the rest.
pub open spec fn spec_prepend_msgs(ms: Seq<MessageModel>, o: DrainOutcome) -> DrainOutcome {
    match o {
        DrainOutcome::Complete { msgs, rest } => DrainOutcome::Complete { msgs: ms + msgs, rest },
        DrainOutcome::Fatal { err } => DrainOutcome::Fatal { err },
    }
}

/// Drain every complete frame from the front of `b`: decode, consume
/// exactly the frame's 39 + length bytes, repeat until the remainder is
/// incomplete, which keeps the tail, or malformed, which is fatal.
pub open spec fn spec_drain(b: Seq<u8>) -> DrainOutcome
    decreases b.len(),
{
    match spec_decode_message(b) {
        Ok(m) => {
            let tail = b.subrange(HEADER_LENGTH + m.length, b.len() as int);
            spec_prepend_msgs(seq![m], spec_drain(tail))
        },
        Err(ProtocolError::Incomplete) => DrainOutcome::Complete {
            msgs: Seq::empty(),
            rest: b,
        },
        Err(e) => DrainOutcome::Fatal { err: e },
    }
}

/// The outcome of appending each chunk in turn to the buffer and draining
/// after every append.
pub open spec fn spec_feed(buf: Seq<u8>, chunks: Seq<Seq<u8>>) -> DrainOutcome
    decreases chunks.len(),
{
    if chunks.len() == 0 {
        DrainOutcome::Complete { msgs: Seq::empty(), rest: buf }
    } else {
        match spec_drain(buf + chunks[0]) {
            DrainOutcome::Complete { msgs, rest } => spec_prepend_msgs(
                msgs,
                spec_feed(rest, chunks.drop_first()),
            ),
            DrainOutcome::Fatal { err } => DrainOutcome::Fatal { err },
        }
    }
}

/// Accumulates successive transport reads for one stream and yields every
/// message whose full frame has arrived. Owned exclusively by the task
/// reading that stream.
pub struct Reassembler {
    buffer: Vec<u8>,
    max_buffered: usize,
}

impl Reassembler {
    /// The bytes buffered so far: a (possibly empty) partial frame.
    pub closed spec fn buffered(self) -> Seq<u8> {
        self.buffer@
    }

    /// The configured bound on retained bytes; exceeding it while a frame
    /// is still incomplete is fatal.
    pub closed spec fn capacity(self) -> usize {
        self.max_buffered
    }

    /// A fresh reassembler with an empty buffer and the given bound on
    /// buffered bytes.
    pub fn new(max_buffered: usize) -> (r: Reassembler)
        ensures
            r.buffered() == Seq::<u8>::empty(),
            r.capacity() == max_buffered,
    {
        Reassembler { buffer: Vec::new(), max_buffered }
    }

    /// Drop every buffered byte, as when the owning stream is torn down.
    pub fn release(&mut self)
        ensures
            final(self).buffered() == Seq::<u8>::empty(),
            final(self).capacity() == old(self).capacity(),
    {
        self.buffer.clear();
    }

    /// Append one transport read and drain every frame now complete.
    ///
    /// Yields the drained messages in arrival order and retains the bytes
    /// of the next, still incomplete frame. If those retained bytes exceed
    /// the configured maximum the stream is poisoned with `FrameTooLarge`;
    /// a malformed frame propagates its own fatal error. Either fatal case
    /// releases the buffer.
    #[verifier::loop_isolation(false)]
    pub fn push(&mut self, chunk: &Vec<u8>) -> (r: Result<Vec<Message>, ProtocolError>)
        ensures
            final(self).capacity() == old(self).capacity(),
            match spec_drain(old(self).buffered() + chunk@) {
                DrainOutcome::Complete { msgs, rest } => {
                    if rest.len() <= old(self).capacity() {
                        &&& r matches Ok(v) && v@.map_values(|m: Message| m@) == msgs
                        &&& final(self).buffered() == rest
                    } else {
                        &&& r == Err::<Vec<Message>, ProtocolError>(ProtocolError::FrameTooLarge)
                        &&& final(self).buffered() == Seq::<u8>::empty()
                    }
                },
                DrainOutcome::Fatal { err } => {
                    &&& r == Err::<Vec<Message>, ProtocolError>(err)
                    &&& final(self).buffered() == Seq::<u8>::empty()
                },
            },
    {
        let ghost combined: Seq<u8> = old(self).buffer@ + chunk@;
        let mut j: usize = 0;
        while j < chunk.len()
            invariant
                j <= chunk@.len(),
                self.max_buffered == old(self).max_buffered,
                self.buffer@ == old(self).buffer@ + chunk@.subrange(0, j as int),
            decreases chunk@.len() - j,
        {
            self.buffer.push(chunk[j]);
            j = j + 1;
            proof {
                assert(self.buffer@ =~= old(self).buffer@ + chunk@.subrange(0, j as int));
            }
        }
        proof {
            assert(chunk@.subrange(0, chunk@.len() as int) =~= chunk@);
            assert(self.buffer@ == combined);
        }
        let mut out: Vec<Message> = Vec::new();
        loop
            invariant
                self.max_buffered == old(self).max_buffered,
                spec_drain(combined) == spec_prepend_msgs(
                    out@.map_values(|m: Message| m@),
                    spec_drain(self.buffer@),
                ),
            decreases self.buffer@.len(),
        {
            let ghost buf_before = self.buffer@;
            let ghost out_before = out@;
            match Message::decode(&self.buffer) {
                Ok(m) => {
                    let buffer_len: usize = self.buffer.len();
                    let consumed: usize = HEADER_LENGTH + m.length as usize;
                    proof {
                        assert(consumed <= buffer_len);
                    }
                    let tail = tail_from(&self.buffer, consumed);
                    self.buffer = tail;
                    out.push(m);
                    proof {
                        assert(out@.map_values(|x: Message| x@) =~= out_before.map_values(
                            |x: Message| x@,
                        ) + seq![m@]);
                        lemma_prepend_assoc(
                            out_before.map_values(|x: Message| x@),
                            seq![m@],
                            spec_drain(self.buffer@),
                        );
                    }
                },
                Err(ProtocolError::Incomplete) => {
                    if self.buffer.len() > self.max_buffered {
                        self.buffer = Vec::new();
                        return Err(ProtocolError::FrameTooLarge);
                    }
                    proof {
                        assert(out@.map_values(|m: Message| m@) + Seq::<MessageModel>::empty()
                            =~= out@.map_values(|m: Message| m@));
                    }
                    return Ok(out);
                },
                Err(e) => {
                    self.buffer = Vec::new();
                    return Err(e);
                },
            }
        }
    }
}

/// Prefixing messages onto an outcome composes.
proof fn lemma_prepend_assoc(a: Seq<MessageModel>, b: Seq<MessageModel>, o: DrainOutcome)
    ensures
        spec_prepend_msgs(a + b, o) == spec_prepend_msgs(a, spec_prepend_msgs(b, o)),
{
    match o {
        DrainOutcome::Complete { msgs, rest } => {
            assert((a + b) + msgs =~= a + (b + msgs));
            assert(spec_prepend_msgs(a + b, o) =~= spec_prepend_msgs(a, spec_prepend_msgs(b, o)));
        },
        DrainOutcome::Fatal { err } => {},
    }
}

/// The bytes of `v` from `start` on, as an independent vector.
fn tail_from(v: &Vec<u8>, start: usize) -> (r: Vec<u8>)
    requires
        start <= v@.len(),
    ensures
        r@ == v@.subrange(start as int, v@.len() as int),
{
    let n: usize = v.len();
    let mut r: Vec<u8> = Vec::new();
    let mut i: usize = start;
    while i < n
        invariant
            start <= i <= n,
            n == v@.len(),
            r@ == v@.subrange(start as int, i as int),
        decreases n - i,
    {
        r.push(v[i]);
        i = i + 1;
        proof {
            assert(r@ =~= v@.subrange(start as int, i as int));
        }
    }
    r
}

/// Split an encoded frame into successive transport writes of at most
/// `CHUNK_SIZE` bytes each, in order, covering all of it.
pub open spec fn spec_chunks(b: Seq<u8>) -> Seq<Seq<u8>>
    decreases b.len(),
{
    if b.len() == 0 {
        Seq::empty()
    } else if b.len() <= CHUNK_SIZE {
        seq![b]
    } else {
        seq![b.subrange(0, CHUNK_SIZE as int)] + spec_chunks(
            b.subrange(CHUNK_SIZE as int, b.len() as int),
        )
    }
}

/// Concatenating the chunks of a frame restores the frame.
pub proof fn lemma_chunks_flatten(b: Seq<u8>)
    ensures
        spec_chunks(b).flatten() == b,
    decreases b.len(),
{
    if b.len() == 0 {
        assert(spec_chunks(b).flatten() =~= b);
    } else if b.len() <= CHUNK_SIZE {
        let s = spec_chunks(b);
        assert(s.first() == b);
        assert(s.drop_first() =~= Seq::<Seq<u8>>::empty());
        assert(Seq::<Seq<u8>>::empty().flatten() =~= Seq::<u8>::empty());
        assert(s.flatten() =~= b);
    } else {
        let head = b.subrange(0, CHUNK_SIZE as int);
        let tail = b.subrange(CHUNK_SIZE as int, b.len() as int);
        lemma_chunks_flatten(tail);
        let s = spec_chunks(b);
        assert(s.first() == head);
        assert(s.drop_first() =~= spec_chunks(tail));
        assert(s.flatten() == head + spec_chunks(tail).flatten());
        assert(s.flatten() =~= b);
    }
}

/// Every chunk of a frame is non-empty and at most `CHUNK_SIZE` bytes.
pub proof fn lemma_chunks_bounded(b: Seq<u8>)
    ensures
        forall|i: int|
            0 <= i < spec_chunks(b).len() ==> 0 < (#[trigger] spec_chunks(b)[i]).len()
                <= CHUNK_SIZE,
    decreases b.len(),
{
    if b.len() > CHUNK_SIZE {
        let tail = b.subrange(CHUNK_SIZE as int, b.len() as int);
        lemma_chunks_bounded(tail);
        assert forall|i: int| 0 <= i < spec_chunks(b).len() implies 0 < (
        #[trigger] spec_chunks(b)[i]).len() <= CHUNK_SIZE by {
            if i > 0 {
                assert(spec_chunks(b)[i] == spec_chunks(tail)[i - 1]);
            }
        }
    }
}

/// Slice an encoded frame into bounded writes: each chunk is at most
/// `CHUNK_SIZE` bytes and their concatenation is the frame.
pub fn split_frame(frame: &Vec<u8>) -> (chunks: Vec<Vec<u8>>)
    ensures
        chunks@.map_values(|c: Vec<u8>| c@) == spec_chunks(frame@),
        chunks@.map_values(|c: Vec<u8>| c@).flatten() == frame@,
        forall|i: int| 0 <= i < chunks@.len() ==> 0 < (#[trigger] chunks@[i])@.len() <= CHUNK_SIZE,
{
    let n: usize = frame.len();
    let mut chunks: Vec<Vec<u8>> = Vec::new();
    let mut pos: usize = 0;
    proof {
        assert(frame@.subrange(0, n as int) =~= frame@);
        assert(chunks@.map_values(|c: Vec<u8>| c@) + spec_chunks(frame@) =~= spec_chunks(
            frame@,
        ));
    }
    while pos < n
        invariant
            pos <= n,
            n == frame@.len(),
            spec_chunks(frame@) == chunks@.map_values(|c: Vec<u8>| c@) + spec_chunks(
                frame@.subrange(pos as int, n as int),
            ),
        decreases n - pos,
    {
        let ghost chunks_before = chunks@;
        let ghost remaining = frame@.subrange(pos as int, n as int);
        let take: usize = if n - pos > CHUNK_SIZE {
            CHUNK_SIZE
        } else {
            n - pos
        };
        let mut piece: Vec<u8> = Vec::new();
        let mut i: usize = pos;
        while i < pos + take
            invariant
                pos <= i <= pos + take,
                pos + take <= n,
                n == frame@.len(),
                piece@ == frame@.subrange(pos as int, i as int),
            decreases pos + take - i,
        {
            piece.push(frame[i]);
            i = i + 1;
            proof {
                assert(piece@ =~= frame@.subrange(pos as int, i as int));
            }
        }
        chunks.push(piece);
        pos = pos + take;
        proof {
            assert(remaining.subrange(0, take as int) =~= frame@.subrange(
                (pos - take) as int,
                pos as int,
            ));
            assert(remaining.subrange(take as int, remaining.len() as int) =~= frame@.subrange(
                pos as int,
                n as int,
            ));
            if remaining.len() <= CHUNK_SIZE {
                assert(remaining.subrange(0, take as int) =~= remaining);
                assert(frame@.subrange(pos as int, n as int) =~= Seq::<u8>::empty());
                assert(spec_chunks(frame@.subrange(pos as int, n as int)) =~= Seq::<
                    Seq<u8>,
                >::empty());
            }
            assert(chunks@.map_values(|c: Vec<u8>| c@) =~= chunks_before.map_values(
                |c: Vec<u8>| c@,
            ) + seq![frame@.subrange((pos - take) as int, pos as int)]);
            assert(spec_chunks(frame@) =~= chunks@.map_values(|c: Vec<u8>| c@) + spec_chunks(
                frame@.subrange(pos as int, n as int),
            ));
        }
    }
    proof {
        assert(frame@.subrange(pos as int, n as int) =~= Seq::<u8>::empty());
        assert(spec_chunks(frame@.subrange(pos as int, n as int)) =~= Seq::<Seq<u8>>::empty());
        assert(chunks@.map_values(|c: Vec<u8>| c@) =~= spec_chunks(frame@));
        lemma_chunks_flatten(frame@);
        lemma_chunks_bounded(frame@);
        assert forall|i: int| 0 <= i < chunks@.len() implies 0 < (#[trigger] chunks@[i])@.len()
            <= CHUNK_SIZE by {
            assert(spec_chunks(frame@)[i] == chunks@.map_values(|c: Vec<u8>| c@)[i]);
            assert(chunks@.map_values(|c: Vec<u8>| c@)[i] == chunks@[i]@);
        }
    }
    chunks
}

/// Feeding chunks that together spell out nothing yields nothing.
proof fn lemma_feed_empty_chunks(chunks: Seq<Seq<u8>>)
    requires
        chunks.flatten().len() == 0,
    ensures
        spec_feed(Seq::<u8>::empty(), chunks) == (DrainOutcome::Complete {
            msgs: Seq::<MessageModel>::empty(),
            rest: Seq::<u8>::empty(),
        }),
    decreases chunks.len(),
{
    if chunks.len() > 0 {
        assert(chunks.flatten() == chunks.first() + chunks.drop_first().flatten());
        assert(chunks[0].len() == 0);
        assert(Seq::<u8>::empty() + chunks[0] =~= Seq::<u8>::empty());
        assert(spec_decode_message(Seq::<u8>::empty()) == Err::<MessageModel, ProtocolError>(
            ProtocolError::Incomplete,
        ));
        assert(spec_drain(Seq::<u8>::empty()) == (DrainOutcome::Complete {
            msgs: Seq::<MessageModel>::empty(),
            rest: Seq::<u8>::empty(),
        }));
        lemma_feed_empty_chunks(chunks.drop_first());
        assert(Seq::<MessageModel>::empty() + Seq::<MessageModel>::empty() =~= Seq::<
            MessageModel,
        >::empty());
    }
}

/// Draining a full frame yields exactly its message and an empty tail.
proof fn lemma_drain_whole_frame(m: MessageModel)
    requires
        m.wf(),
    ensures
        spec_drain(spec_encode_message(m)) == (DrainOutcome::Complete {
            msgs: seq![m],
            rest: Seq::<u8>::empty(),
        }),
{
    let f = spec_encode_message(m);
    lemma_message_round_trip(m);
    assert(f.len() == HEADER_LENGTH + m.length);
    assert(f.subrange(HEADER_LENGTH + m.length, f.len() as int) =~= Seq::<u8>::empty());
    assert(spec_decode_message(Seq::<u8>::empty()) == Err::<MessageModel, ProtocolError>(
        ProtocolError::Incomplete,
    ));
    assert(spec_drain(Seq::<u8>::empty()) == (DrainOutcome::Complete {
        msgs: Seq::<MessageModel>::empty(),
        rest: Seq::<u8>::empty(),
    }));
    assert(seq![m] + Seq::<MessageModel>::empty() =~= seq![m]);
}

/// Feeding the remaining chunks of a frame onto a buffered proper prefix
/// of it yields exactly the frame's message.
proof fn lemma_feed_frame_suffix(m: MessageModel, buf: Seq<u8>, chunks: Seq<Seq<u8>>)
    requires
        m.wf(),
        buf + chunks.flatten() == spec_encode_message(m),
        buf.len() < spec_encode_message(m).len(),
    ensures
        spec_feed(buf, chunks) == (DrainOutcome::Complete {
            msgs: seq![m],
            rest: Seq::<u8>::empty(),
        }),
    decreases chunks.len(),
{
    let f = spec_encode_message(m);
    if chunks.len() == 0 {
        assert(buf + chunks.flatten() =~= buf);
        assert(false);
    } else {
        assert(chunks.flatten() == chunks.first() + chunks.drop_first().flatten());
        let nb = buf + chunks[0];
        assert(nb + chunks.drop_first().flatten() =~= f);
        assert(nb.len() <= f.len());
        if nb.len() < f.len() {
            assert(nb =~= f.subrange(0, nb.len() as int));
            lemma_prefix_incomplete(m, nb.len() as int);
            assert(spec_drain(nb) == (DrainOutcome::Complete {
                msgs: Seq::<MessageModel>::empty(),
                rest: nb,
            }));
            lemma_feed_frame_suffix(m, nb, chunks.drop_first());
            assert(Seq::<MessageModel>::empty() + seq![m] =~= seq![m]);
        } else {
            assert(nb =~= f);
            assert(chunks.drop_first().flatten().len() == 0);
            lemma_drain_whole_frame(m);
            lemma_feed_empty_chunks(chunks.drop_first());
            assert(seq![m] + Seq::<MessageModel>::empty() =~= seq![m]);
        }
    }
}

/// Chunked delivery equivalence: splitting an encoded frame into arbitrary
/// chunks and feeding them in order into an empty reassembly buffer yields
/// exactly one message, the frame's own, whatever the boundaries were.
pub proof fn lemma_chunked_delivery(m: MessageModel, chunks: Seq<Seq<u8>>)
    requires
        m.wf(),
        chunks.flatten() == spec_encode_message(m),
    ensures
        spec_feed(Seq::<u8>::empty(), chunks) == (DrainOutcome::Complete {
            msgs: seq![m],
            rest: Seq::<u8>::empty(),
        }),
{
    assert(Seq::<u8>::empty() + chunks.flatten() =~= chunks.flatten());
    assert(spec_encode_message(m).len() >= HEADER_LENGTH);
    lemma_feed_frame_suffix(m, Seq::<u8>::empty(), chunks);
}

/// Back-to-back frames: a buffer holding two whole frames drains to their
/// two messages, in order, with nothing retained.
pub proof fn lemma_back_to_back(m1: MessageModel, m2: MessageModel)
    requires
        m1.wf(),
        m2.wf(),
    ensures
        spec_drain(spec_encode_message(m1) + spec_encode_message(m2)) == (DrainOutcome::Complete {
            msgs: seq![m1, m2],
            rest: Seq::<u8>::empty(),
        }),
{
    let f1 = spec_encode_message(m1);
    let f2 = spec_encode_message(m2);
    lemma_decode_frame_with_trailing(m1, f2);
    assert((f1 + f2).subrange(HEADER_LENGTH + m1.length, (f1 + f2).len() as int) =~= f2);
    lemma_drain_whole_frame(m2);
    assert(seq![m1] + seq![m2] =~= seq![m1, m2]);
}

} // verus!
