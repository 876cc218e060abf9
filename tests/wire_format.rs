use mem_trace::codec::{decode_body, encode_message, frame_body, Trace, WireError};
use mem_trace::wire::{buf_to_u32, write_u32, HEADER_SIZE};

#[test]
fn write_u32_little_endian() {
    let mut buffer = vec![9u8, 9, 9, 9, 7];
    write_u32(&mut buffer, 0x0102_0304);
    assert_eq!(buffer, vec![4, 3, 2, 1, 7]);
}

#[test]
fn write_u32_short_buffer_untouched() {
    let mut buffer = vec![5u8, 6, 7];
    write_u32(&mut buffer, 0xFFFF_FFFF);
    assert_eq!(buffer, vec![5, 6, 7]);
}

#[test]
fn buf_to_u32_reads_header() {
    assert_eq!(buf_to_u32(&[0x04, 0x03, 0x02, 0x01, 0xFF]), Some(0x0102_0304));
    assert_eq!(buf_to_u32(&[0xFF, 0xFF, 0xFF, 0xFF]), Some(u32::MAX));
}

#[test]
fn buf_to_u32_short_is_none() {
    assert_eq!(buf_to_u32(&[]), None);
    assert_eq!(buf_to_u32(&[1, 2, 3]), None);
}

#[test]
fn header_size_is_four() {
    assert_eq!(HEADER_SIZE, 4);
}

#[test]
fn frame_body_prefixes_length() {
    assert_eq!(frame_body(&vec![]), Some(vec![0, 0, 0, 0]));
    assert_eq!(frame_body(&vec![9, 8]), Some(vec![2, 0, 0, 0, 9, 8]));
}

#[test]
fn encode_message_is_messagepack() {
    let trace = Trace { address: 0x1000, stack: vec![0xAAAA, 0xBBBB] };
    let message = encode_message(&trace).expect("encodes");
    let body = vec![0x92u8, 0xcd, 0x10, 0x00, 0x92, 0xcd, 0xaa, 0xaa, 0xcd, 0xbb, 0xbb];
    let mut expected = vec![body.len() as u8, 0, 0, 0];
    expected.extend_from_slice(&body);
    assert_eq!(message, expected);
}

#[test]
fn wire_round_trip() {
    let cases = vec![
        Trace { address: 0, stack: vec![] },
        Trace { address: 0x1000, stack: vec![0xAAAA, 0xBBBB] },
        Trace { address: u64::MAX, stack: vec![1, 0x7f, 0x80, 0xffff, 0x1_0000, u64::MAX] },
    ];
    for trace in cases {
        let message = encode_message(&trace).expect("encodes");
        let declared = buf_to_u32(&message).unwrap() as usize;
        assert_eq!(declared, message.len() - HEADER_SIZE);
        let decoded = decode_body(&message[HEADER_SIZE..]).ok().expect("decodes");
        assert_eq!(decoded.address, trace.address);
        assert_eq!(decoded.stack, trace.stack);
    }
}

#[test]
fn decode_malformed_body() {
    assert!(matches!(decode_body(&[0xc1]), Err(WireError::Malformed)));
    assert!(matches!(decode_body(&[]), Err(WireError::Malformed)));
    assert!(matches!(decode_body(&[0x92, 0x01]), Err(WireError::Malformed)));
}
