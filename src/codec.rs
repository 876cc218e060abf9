//! The body of a message: one trace record, `address` and the raw frames of
//! its stack, as a MessagePack array `[address, [frame, ...]]`.

use vstd::prelude::*;
use rustc_serialize::Decodable;
use rustc_serialize::Encodable;
use crate::wire::{u32_le_bytes, write_u32};

verus! {

/// One allocation: the address the allocator returned and the raw
/// instruction pointers of the call stack that asked for it.
pub struct Trace {
    pub address: u64,
    pub stack: Vec<u64>,
}

impl View for Trace {
    type V = (u64, Seq<u64>);

    open spec fn view(&self) -> (u64, Seq<u64>) {
        (self.address, self.stack@)
    }
}

/// Why a message body could not be turned into a trace record.
#[derive(Clone, Copy, Debug, PartialEq, Eq)]
pub enum WireError {
    /// The body is not the MessagePack form of a trace record.
    Malformed,
}

/// The bytes that rmp_serialize writes for the pair `(address, stack)`.
pub uninterp spec fn msgpack_trace(address: u64, stack: Seq<u64>) -> Seq<u8>;

/// What rmp_serialize reads back from `body` as a pair `(address, stack)`,
/// or `None` where it reports an error.
pub uninterp spec fn msgpack_trace_decoded(body: Seq<u8>) -> Option<(u64, Seq<u64>)>;

/// Relies on rustc_serialize's `Encodable` for `(u64, &Vec<u64>)` driving
/// rmp_serialize's `Encoder`: the bytes depend on the values alone, and its
/// `Decoder` reads them back (a sequence length is written as a `u32`).
/// The encoder only writes into the `Vec` it is given, which cannot fail.
#[verifier::external_body]
fn msgpack_encode(address: u64, stack: &Vec<u64>) -> (r: Option<Vec<u8>>)
    ensures
        r is Some,
        r matches Some(b) ==> b@ == msgpack_trace(address, stack@),
        r matches Some(b) ==> stack@.len() <= u32::MAX ==> msgpack_trace_decoded(b@) == Some(
            (address, stack@),
        ),
{
    let mut out: Vec<u8> = Vec::new();
    match (address, stack).encode(&mut rmp_serialize::Encoder::new(&mut out)) {
        Ok(()) => Some(out),
        Err(_) => None,
    }
}

/// Relies on rustc_serialize's `Decodable` for `(u64, Vec<u64>)` driving
/// rmp_serialize's `Decoder` over the bytes of `body`: the outcome depends on
/// the bytes alone.
#[verifier::external_body]
fn msgpack_decode(body: &[u8]) -> (r: Option<(u64, Vec<u64>)>)
    ensures
        r matches Some(p) ==> msgpack_trace_decoded(body@) == Some((p.0, p.1@)),
        r is None ==> msgpack_trace_decoded(body@) is None,
{
    let mut decoder = rmp_serialize::Decoder::new(body);
    match <(u64, Vec<u64>) as Decodable>::decode(&mut decoder) {
        Ok(p) => Some(p),
        Err(_) => None,
    }
}

/// The message that carries `body`: its length as a little-endian header,
/// then the body itself.
pub open spec fn framed(body: Seq<u8>) -> Seq<u8>
    recommends
        body.len() <= u32::MAX,
{
    u32_le_bytes(body.len() as u32) + body
}

/// Prefixes `body` with its length; `None` where the length does not fit the
/// four-byte header.
pub fn frame_body(body: &Vec<u8>) -> (r: Option<Vec<u8>>)
    ensures
        r matches Some(m) ==> m@ == framed(body@),
        r is None <==> body@.len() > u32::MAX,
{
    if body.len() > 0xFFFF_FFFFusize {
        return None;
    }
    let mut message: Vec<u8> = Vec::new();
    message.push(0u8);
    message.push(0u8);
    message.push(0u8);
    message.push(0u8);
    message.extend_from_slice(body.as_slice());
    write_u32(message.as_mut_slice(), body.len() as u32);
    assert(message@ =~= framed(body@));
    Some(message)
}

/// Encodes `trace` as one framed message, ready to be written to the
/// collector. `None` where the stack has more frames than the encoding can
/// count, or the body is too long for the header; every message produced
/// decodes back to `trace`.
pub fn encode_message(trace: &Trace) -> (r: Option<Vec<u8>>)
    ensures
        r is None <==> trace.stack@.len() > u32::MAX || msgpack_trace(
            trace.address,
            trace.stack@,
        ).len() > u32::MAX,
        r matches Some(m) ==> m@ == framed(msgpack_trace(trace.address, trace.stack@)),
        r matches Some(m) ==> msgpack_trace_decoded(msgpack_trace(trace.address, trace.stack@))
            == Some(trace@),
{
    if trace.stack.len() > 0xFFFF_FFFFusize {
        return None;
    }
    match msgpack_encode(trace.address, &trace.stack) {
        Some(body) => frame_body(&body),
        None => None,
    }
}

/// Decodes one message body into a trace record.
pub fn decode_body(body: &[u8]) -> (r: Result<Trace, WireError>)
    ensures
        r matches Ok(t) ==> msgpack_trace_decoded(body@) == Some(t@),
        r is Err <==> msgpack_trace_decoded(body@) is None,
        r matches Err(e) ==> e == WireError::Malformed,
{
    match msgpack_decode(body) {
        Some(p) => Ok(Trace { address: p.0, stack: p.1 }),
        None => Err(WireError::Malformed),
    }
}

} // verus!
