//! Reassembly of length-prefixed messages from a byte stream that arrives in
//! chunks of any size.

use vstd::prelude::*;
use crate::wire::{HEADER_SIZE, le_u32, u32_le_bytes, buf_to_u32, lemma_le_bytes_round_trip};

verus! {

/// The message bodies that the stream `s` holds in full, in order: each is
/// the run of bytes that its header announces.
pub open spec fn frames(s: Seq<u8>) -> Seq<Seq<u8>>
    decreases s.len(),
{
    if s.len() < 4 || s.len() < 4 + le_u32(s) {
        seq![]
    } else {
        let end = 4 + le_u32(s) as int;
        seq![s.subrange(4, end)] + frames(s.skip(end))
    }
}

/// What remains of the stream `s` after its complete messages: a partial
/// header, or a header and part of its body.
pub open spec fn leftover(s: Seq<u8>) -> Seq<u8>
    decreases s.len(),
{
    if s.len() < 4 || s.len() < 4 + le_u32(s) {
        s
    } else {
        leftover(s.skip(4 + le_u32(s) as int))
    }
}

/// The contents of a list of byte vectors.
pub open spec fn bodies_view(v: Seq<Vec<u8>>) -> Seq<Seq<u8>> {
    v.map_values(|b: Vec<u8>| b@)
}

/// The header bytes at the start of `b` are those of the value they hold.
proof fn lemma_header_bytes(b: Seq<u8>)
    requires
        b.len() >= 4,
    ensures
        le_u32(b) <= u32::MAX,
        u32_le_bytes(le_u32(b) as u32) =~= b.take(4),
{
    let b0 = b[0];
    let b1 = b[1];
    let b2 = b[2];
    let b3 = b[3];
    let v: u32 = b0 as u32 | (b1 as u32) << 8 | (b2 as u32) << 16 | (b3 as u32) << 24;
    assert(v == b0 as u32 + 256 * (b1 as u32) + 65536 * (b2 as u32) + 16777216 * (b3 as u32)
        && (v & 0xff) as u8 == b0 && ((v >> 8u32) & 0xff) as u8 == b1 && ((v >> 16u32) & 0xff)
        as u8 == b2 && ((v >> 24u32) & 0xff) as u8 == b3) by (bit_vector)
        requires
            v == b0 as u32 | (b1 as u32) << 8 | (b2 as u32) << 16 | (b3 as u32) << 24,
    ;
}

/// The bodies handed out when the chunks of `chunks` arrive one after the
/// other at a connection whose pending bytes are `p`.
pub open spec fn received(p: Seq<u8>, chunks: Seq<Seq<u8>>) -> Seq<Seq<u8>>
    decreases chunks.len(),
{
    if chunks.len() == 0 {
        seq![]
    } else {
        frames(p + chunks[0]) + received(leftover(p + chunks[0]), chunks.drop_first())
    }
}

/// The stream that carries the messages of `bodies`, one after the other.
pub open spec fn framed_all(bodies: Seq<Seq<u8>>) -> Seq<u8>
    decreases bodies.len(),
{
    if bodies.len() == 0 {
        seq![]
    } else {
        u32_le_bytes(bodies[0].len() as u32) + bodies[0] + framed_all(bodies.drop_first())
    }
}

/// A stream split in two: the messages of the whole are those complete in
/// the first part, then those of what the first part left over followed by
/// the second part; and both leave the same bytes over.
pub proof fn lemma_split_stream(a: Seq<u8>, b: Seq<u8>)
    ensures
        frames(a + b) == frames(a) + frames(leftover(a) + b),
        leftover(a + b) == leftover(leftover(a) + b),
    decreases a.len(),
{
    if a.len() < 4 || a.len() < 4 + le_u32(a) {
        assert(frames(a) =~= seq![]);
    } else {
        let end = 4 + le_u32(a) as int;
        assert(le_u32(a + b) == le_u32(a));
        assert((a + b).subrange(4, end) =~= a.subrange(4, end));
        assert((a + b).skip(end) =~= a.skip(end) + b);
        lemma_split_stream(a.skip(end), b);
        assert(frames(a + b) =~= frames(a) + frames(leftover(a) + b));
    }
}

/// Feeding a stream chunk by chunk, in at least one chunk and in chunks of
/// any size, hands out the same bodies, in the same order, as feeding it in
/// one piece.
pub proof fn lemma_chunking(p: Seq<u8>, chunks: Seq<Seq<u8>>)
    requires
        chunks.len() > 0,
    ensures
        received(p, chunks) == frames(p + chunks.flatten()),
    decreases chunks.len(),
{
    let c = chunks[0];
    let rest = chunks.drop_first();
    assert(p + chunks.flatten() =~= (p + c) + rest.flatten());
    lemma_split_stream(p + c, rest.flatten());
    if rest.len() == 0 {
        assert(rest.flatten() =~= Seq::<u8>::empty());
        assert(leftover(p + c) + rest.flatten() =~= leftover(p + c));
        assert((p + c) + rest.flatten() =~= p + c);
        lemma_no_frames_in_leftover(p + c);
        assert(received(leftover(p + c), rest) =~= Seq::<Seq<u8>>::empty());
        assert(received(p, chunks) =~= frames(p + c));
    } else {
        lemma_chunking(leftover(p + c), rest);
    }
}

/// Proof helper: what a stream leaves over holds no complete message.
proof fn lemma_no_frames_in_leftover(s: Seq<u8>)
    ensures
        frames(leftover(s)) == Seq::<Seq<u8>>::empty(),
    decreases s.len(),
{
    if !(s.len() < 4 || s.len() < 4 + le_u32(s)) {
        lemma_no_frames_in_leftover(s.skip(4 + le_u32(s) as int));
    }
}

/// Messages written one after the other into one stream come out whole, in
/// order, whatever their bodies hold, and leave nothing over.
pub proof fn lemma_concatenated_messages(bodies: Seq<Seq<u8>>)
    requires
        forall|i: int| 0 <= i < bodies.len() ==> (#[trigger] bodies[i]).len() <= u32::MAX,
    ensures
        frames(framed_all(bodies)) == bodies,
        leftover(framed_all(bodies)) == Seq::<u8>::empty(),
    decreases bodies.len(),
{
    if bodies.len() == 0 {
        assert(frames(framed_all(bodies)) =~= bodies);
    } else {
        let b = bodies[0];
        let rest = bodies.drop_first();
        let s = framed_all(bodies);
        lemma_le_bytes_round_trip(b.len() as u32);
        assert(s.take(4) =~= u32_le_bytes(b.len() as u32));
        assert(le_u32(s) == b.len());
        lemma_concatenated_messages(rest);
        assert(s.subrange(4, 4 + b.len() as int) =~= b);
        assert(s.skip(4 + b.len() as int) =~= framed_all(rest));
        assert(frames(s) =~= bodies);
    }
}

/// The state of one collector connection: the bytes received and not yet
/// handed out as a message body, with the length announced by a header that
/// has already been read, if any.
pub struct Connection {
    buffer: Vec<u8>,
    message_size: Option<u32>,
}

impl Connection {
    /// The bytes of the stream that this connection has received and not
    /// yet handed out, the header already read included.
    pub closed spec fn pending(&self) -> Seq<u8> {
        match self.message_size {
            Some(n) => u32_le_bytes(n) + self.buffer@,
            None => self.buffer@,
        }
    }

    /// A connection that has received nothing.
    pub fn new() -> (r: Connection)
        ensures
            r.pending() == Seq::<u8>::empty(),
    {
        Connection { buffer: Vec::new(), message_size: None }
    }

    /// Appends `data` to the stream and hands out, in order, the body of
    /// every message that is now complete; what is left stays pending.
    pub fn receive(&mut self, data: &[u8]) -> (bodies: Vec<Vec<u8>>)
        ensures
            bodies_view(bodies@) == frames(old(self).pending() + data@),
            final(self).pending() == leftover(old(self).pending() + data@),
    {
        let ghost whole = self.pending() + data@;
        self.buffer.extend_from_slice(data);
        assert(self.pending() =~= whole);
        let mut bodies: Vec<Vec<u8>> = Vec::new();
        loop
            invariant
                bodies_view(bodies@) + frames(self.pending()) == frames(whole),
                leftover(self.pending()) == leftover(whole),
            ensures
                bodies_view(bodies@) + frames(self.pending()) == frames(whole),
                leftover(self.pending()) == leftover(whole),
                frames(self.pending()) == Seq::<Seq<u8>>::empty(),
                leftover(self.pending()) == self.pending(),
            decreases self.pending().len(),
        {
            let ghost before = self.pending();
            if self.message_size.is_none() {
                match buf_to_u32(self.buffer.as_slice()) {
                    Some(n) => {
                        proof {
                            lemma_header_bytes(self.buffer@);
                        }
                        let rest = self.buffer.split_off(HEADER_SIZE);
                        self.buffer = rest;
                        self.message_size = Some(n);
                        assert(self.pending() =~= before);
                    },
                    None => {
                        assert(frames(self.pending()) =~= seq![]);
                        assert(leftover(self.pending()) == self.pending());
                        break ;
                    },
                }
            }
            let n = match self.message_size {
                Some(n) => n,
                None => 0,
            };
            let ghost cur = self.pending();
            proof {
                lemma_le_bytes_round_trip(n);
                assert(cur.take(4) =~= u32_le_bytes(n));
                assert(le_u32(cur) == n);
            }
            if self.buffer.len() < n as usize {
                assert(frames(cur) =~= seq![]);
                assert(leftover(cur) == cur);
                break ;
            }
            let mut body = self.buffer.split_off(n as usize);
            std::mem::swap(&mut self.buffer, &mut body);
            self.message_size = None;
            proof {
                assert(cur.subrange(4, 4 + n as int) =~= body@);
                assert(cur.skip(4 + n as int) =~= self.pending());
                assert(frames(cur) == seq![body@] + frames(self.pending()));
                assert(bodies_view(bodies@.push(body)) =~= bodies_view(bodies@).push(body@));
            }
            bodies.push(body);
            assert(bodies_view(bodies@) + frames(self.pending()) =~= bodies_view(bodies@).drop_last()
                + frames(cur));
        }
        assert(bodies_view(bodies@) =~= bodies_view(bodies@) + frames(self.pending()));
        bodies
    }
}

} // verus!
