//! The collector's side of a connection: message bodies are decoded and the
//! records they carry go into the trace store; a body that does not decode
//! is skipped, and the messages after it are read as usual.

use vstd::prelude::*;
use crate::codec::{decode_body, msgpack_trace_decoded};
use crate::framing::{
    Connection, frames, leftover, framed_all, received, lemma_chunking, lemma_concatenated_messages,
};
use crate::store::TraceStore;

verus! {

/// The store `m` after the bodies of `bodies` are dispatched in order: each
/// that decodes replaces the entry for its address.
pub open spec fn dispatched(m: Map<u64, Seq<u64>>, bodies: Seq<Seq<u8>>) -> Map<u64, Seq<u64>>
    decreases bodies.len(),
{
    if bodies.len() == 0 {
        m
    } else {
        let before = dispatched(m, bodies.drop_last());
        match msgpack_trace_decoded(bodies.last()) {
            Some(t) => before.insert(t.0, t.1),
            None => before,
        }
    }
}

/// How many of `bodies` do not decode.
pub open spec fn malformed_count(bodies: Seq<Seq<u8>>) -> nat
    decreases bodies.len(),
{
    if bodies.len() == 0 {
        0
    } else {
        malformed_count(bodies.drop_last()) + if msgpack_trace_decoded(bodies.last()) is None {
            1nat
        } else {
            0nat
        }
    }
}

/// Hands `data`, just read from the connection's socket, to the connection;
/// each message that completes is decoded and recorded in `store`. Returns
/// the number of messages whose body did not decode and was skipped.
pub fn handle_data(conn: &mut Connection, store: &mut TraceStore, data: &[u8]) -> (skipped:
    usize)
    requires
        old(store).wf(),
    ensures
        final(store).wf(),
        final(store)@ == dispatched(old(store)@, frames(old(conn).pending() + data@)),
        final(conn).pending() == leftover(old(conn).pending() + data@),
        skipped == malformed_count(frames(old(conn).pending() + data@)),
{
    let bodies = conn.receive(data);
    let ghost all = frames(old(conn).pending() + data@);
    let ghost store0 = store@;
    let mut skipped: usize = 0;
    let mut i: usize = 0;
    while i < bodies.len()
        invariant
            i <= bodies.len(),
            all.len() == bodies.len(),
            forall|k: int| 0 <= k < bodies.len() ==> #[trigger] all[k] == bodies[k]@,
            store.wf(),
            store@ == dispatched(store0, all.take(i as int)),
            skipped == malformed_count(all.take(i as int)),
            skipped <= i,
        decreases bodies.len() - i,
    {
        assert(all[i as int] == bodies[i as int]@);
        assert(all.take(i + 1).drop_last() =~= all.take(i as int));
        match decode_body(bodies[i].as_slice()) {
            Ok(trace) => {
                store.record(trace.address, trace.stack);
            },
            Err(_) => {
                skipped = skipped + 1;
            },
        }
        i = i + 1;
    }
    assert(all.take(i as int) =~= all);
    skipped
}

/// Proof helper: a body that does not decode changes nothing, wherever it
/// stands.
proof fn lemma_skip_one(m: Map<u64, Seq<u64>>, before: Seq<Seq<u8>>, bad: Seq<u8>, after: Seq<Seq<u8>>)
    requires
        msgpack_trace_decoded(bad) is None,
    ensures
        dispatched(m, before + seq![bad] + after) == dispatched(m, before + after),
        malformed_count(before + seq![bad] + after) == malformed_count(before + after) + 1,
    decreases after.len(),
{
    if after.len() == 0 {
        assert((before + seq![bad] + after).drop_last() =~= before);
        assert(before + after =~= before);
    } else {
        lemma_skip_one(m, before, bad, after.drop_last());
        assert((before + seq![bad] + after).drop_last() =~= before + seq![bad] + after.drop_last());
        assert((before + after).drop_last() =~= before + after.drop_last());
    }
}

/// A message whose body does not decode, among well-framed messages, is
/// skipped alone: the store ends as if it had not been sent, the count of
/// skipped messages goes up by one, and the framing of the messages after it
/// is not disturbed.
pub proof fn lemma_malformed_body_skipped(
    m: Map<u64, Seq<u64>>,
    before: Seq<Seq<u8>>,
    bad: Seq<u8>,
    after: Seq<Seq<u8>>,
)
    requires
        msgpack_trace_decoded(bad) is None,
        bad.len() <= u32::MAX,
        forall|i: int| 0 <= i < before.len() ==> (#[trigger] before[i]).len() <= u32::MAX,
        forall|i: int| 0 <= i < after.len() ==> (#[trigger] after[i]).len() <= u32::MAX,
    ensures
        frames(framed_all(before + seq![bad] + after)) == before + seq![bad] + after,
        dispatched(m, frames(framed_all(before + seq![bad] + after))) == dispatched(
            m,
            before + after,
        ),
        malformed_count(frames(framed_all(before + seq![bad] + after))) == malformed_count(
            before + after,
        ) + 1,
{
    let all = before + seq![bad] + after;
    assert forall|i: int| 0 <= i < all.len() implies (#[trigger] all[i]).len() <= u32::MAX by {
        if i < before.len() {
            assert(all[i] == before[i]);
        } else if i > before.len() {
            assert(all[i] == after[i - before.len() - 1]);
        }
    }
    lemma_concatenated_messages(all);
    lemma_skip_one(m, before, bad, after);
}

/// The store `m` after the chunks of `chunks` are handed to `handle_data`
/// one after the other, on a connection whose pending bytes are `p`.
pub open spec fn dispatched_in_chunks(
    m: Map<u64, Seq<u64>>,
    p: Seq<u8>,
    chunks: Seq<Seq<u8>>,
) -> Map<u64, Seq<u64>>
    decreases chunks.len(),
{
    if chunks.len() == 0 {
        m
    } else {
        dispatched_in_chunks(
            dispatched(m, frames(p + chunks[0])),
            leftover(p + chunks[0]),
            chunks.drop_first(),
        )
    }
}

/// Dispatching two runs of bodies is dispatching the first, then the second.
pub proof fn lemma_dispatch_concat(m: Map<u64, Seq<u64>>, a: Seq<Seq<u8>>, b: Seq<Seq<u8>>)
    ensures
        dispatched(m, a + b) == dispatched(dispatched(m, a), b),
    decreases b.len(),
{
    if b.len() == 0 {
        assert(a + b =~= a);
    } else {
        lemma_dispatch_concat(m, a, b.drop_last());
        assert((a + b).drop_last() =~= a + b.drop_last());
    }
}

/// Proof helper: handing over chunks dispatches what the connection hands
/// out for them.
proof fn lemma_chunks_dispatch_received(m: Map<u64, Seq<u64>>, p: Seq<u8>, chunks: Seq<Seq<u8>>)
    ensures
        dispatched_in_chunks(m, p, chunks) == dispatched(m, received(p, chunks)),
    decreases chunks.len(),
{
    if chunks.len() == 0 {
        assert(dispatched(m, received(p, chunks)) == m);
    } else {
        let first = frames(p + chunks[0]);
        lemma_chunks_dispatch_received(dispatched(m, first), leftover(p + chunks[0]), chunks.drop_first());
        lemma_dispatch_concat(m, first, received(leftover(p + chunks[0]), chunks.drop_first()));
    }
}

/// A stream handed to a connection chunk by chunk, in at least one chunk
/// and in chunks of any size, leaves the store as it is left by the whole
/// stream handed over at once.
pub proof fn lemma_chunked_stream_same_store(
    m: Map<u64, Seq<u64>>,
    p: Seq<u8>,
    chunks: Seq<Seq<u8>>,
)
    requires
        chunks.len() > 0,
    ensures
        dispatched_in_chunks(m, p, chunks) == dispatched(m, frames(p + chunks.flatten())),
{
    lemma_chunks_dispatch_received(m, p, chunks);
    lemma_chunking(p, chunks);
}

} // verus!
