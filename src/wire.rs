//! Length-prefixed framing: a four-byte little-endian header naming the byte
//! length of the body that follows it.

use vstd::prelude::*;

verus! {

/// Byte length of the length prefix that precedes every message body.
pub const HEADER_SIZE: usize = 4;

/// The value of the first four bytes of `b`, read little-endian.
pub open spec fn le_u32(b: Seq<u8>) -> nat
    recommends
        b.len() >= 4,
{
    b[0] as nat + 256 * (b[1] as nat) + 65536 * (b[2] as nat) + 16777216 * (b[3] as nat)
}

/// The four little-endian bytes of `v`.
pub open spec fn u32_le_bytes(v: u32) -> Seq<u8> {
    seq![
        (v & 0xff) as u8,
        ((v >> 8u32) & 0xff) as u8,
        ((v >> 16u32) & 0xff) as u8,
        ((v >> 24u32) & 0xff) as u8,
    ]
}

/// Reading back the bytes of `v` gives `v`.
pub proof fn lemma_le_bytes_round_trip(v: u32)
    ensures
        u32_le_bytes(v).len() == 4,
        le_u32(u32_le_bytes(v)) == v as nat,
{
    let b0 = (v & 0xff) as u8;
    let b1 = ((v >> 8u32) & 0xff) as u8;
    let b2 = ((v >> 16u32) & 0xff) as u8;
    let b3 = ((v >> 24u32) & 0xff) as u8;
    assert(b0 as u32 + 256 * (b1 as u32) + 65536 * (b2 as u32) + 16777216 * (b3 as u32) == v)
        by (bit_vector)
        requires
            b0 == (v & 0xff) as u8,
            b1 == ((v >> 8u32) & 0xff) as u8,
            b2 == ((v >> 16u32) & 0xff) as u8,
            b3 == ((v >> 24u32) & 0xff) as u8,
    ;
}

/// Writes `size` little-endian into the first four bytes of `buffer`; a
/// buffer shorter than the header is left as it is.
pub fn write_u32(buffer: &mut [u8], size: u32)
    ensures
        final(buffer)@.len() == old(buffer)@.len(),
        old(buffer)@.len() >= HEADER_SIZE ==> final(buffer)@ == u32_le_bytes(size) + old(
            buffer,
        )@.skip(4),
        old(buffer)@.len() < HEADER_SIZE ==> final(buffer)@ == old(buffer)@,
{
    if buffer.len() >= HEADER_SIZE {
        buffer[0] = (size & 0xFF) as u8;
        buffer[1] = ((size >> 8) & 0xFF) as u8;
        buffer[2] = ((size >> 16) & 0xFF) as u8;
        buffer[3] = ((size >> 24) & 0xFF) as u8;
        assert(buffer@ =~= u32_le_bytes(size) + old(buffer)@.skip(4));
    }
}

/// Reads the length prefix at the start of `buffer`, if it holds one.
pub fn buf_to_u32(buffer: &[u8]) -> (r: Option<u32>)
    ensures
        buffer@.len() >= HEADER_SIZE ==> r == Some(le_u32(buffer@) as u32) && le_u32(buffer@)
            < 0x1_0000_0000,
        buffer@.len() < HEADER_SIZE ==> r is None,
{
    if buffer.len() >= HEADER_SIZE {
        let b0 = buffer[0];
        let b1 = buffer[1];
        let b2 = buffer[2];
        let b3 = buffer[3];
        let v = b0 as u32 | (b1 as u32) << 8 | (b2 as u32) << 16 | (b3 as u32) << 24;
        assert(v == b0 as u32 + 256 * (b1 as u32) + 65536 * (b2 as u32) + 16777216 * (b3 as u32))
            by (bit_vector)
            requires
                v == b0 as u32 | (b1 as u32) << 8 | (b2 as u32) << 16 | (b3 as u32) << 24,
        ;
        Some(v)
    } else {
        None
    }
}

} // verus!
