use mem_trace::codec::{encode_message, Trace};
use mem_trace::collector::handle_data;
use mem_trace::framing::Connection;
use mem_trace::query::{answer_query, parse_address, QueryReply};
use mem_trace::store::TraceStore;

fn message(address: u64, stack: Vec<u64>) -> Vec<u8> {
    encode_message(&Trace { address, stack }).expect("encodes")
}

#[test]
fn chunked_stream_gives_same_bodies() {
    let mut stream = message(0x10, vec![1, 2, 3]);
    stream.extend(message(0x20, vec![]));
    stream.extend(vec![5, 0, 0, 0, 1, 2, 3, 4, 5]);
    stream.extend(vec![3, 0]);

    let mut whole = Connection::new();
    let all_at_once = whole.receive(&stream);

    for size in 1..stream.len() {
        let mut conn = Connection::new();
        let mut bodies = Vec::new();
        for chunk in stream.chunks(size) {
            bodies.extend(conn.receive(chunk));
        }
        assert_eq!(bodies, all_at_once);
    }
    assert_eq!(all_at_once.len(), 3);
    assert_eq!(all_at_once[2], vec![1, 2, 3, 4, 5]);
}

#[test]
fn zero_length_body_is_a_message() {
    let mut conn = Connection::new();
    let bodies = conn.receive(&[0, 0, 0, 0, 1, 0, 0, 0, 42]);
    assert_eq!(bodies, vec![vec![], vec![42]]);
}

#[test]
fn concatenated_messages_dispatched_in_order() {
    let mut stream = message(0x1, vec![0xA]);
    stream.extend(message(0x2, vec![0xB]));
    stream.extend(message(0x1, vec![0xC]));
    let mut conn = Connection::new();
    let mut store = TraceStore::new();
    let skipped = handle_data(&mut conn, &mut store, &stream);
    assert_eq!(skipped, 0);
    assert_eq!(store.len(), 2);
    assert_eq!(store.query(0x1), Some(vec![0xC]));
    assert_eq!(store.query(0x2), Some(vec![0xB]));
}

#[test]
fn malformed_body_skipped_alone() {
    let mut stream = message(0x1, vec![0xA]);
    stream.extend(vec![3, 0, 0, 0, 0xc1, 0xc1, 0xc1]);
    stream.extend(message(0x2, vec![0xB]));
    let mut conn = Connection::new();
    let mut store = TraceStore::new();
    let mut skipped = 0;
    for chunk in stream.chunks(2) {
        skipped += handle_data(&mut conn, &mut store, chunk);
    }
    assert_eq!(skipped, 1);
    assert_eq!(store.len(), 2);
    assert_eq!(store.query(0x1), Some(vec![0xA]));
    assert_eq!(store.query(0x2), Some(vec![0xB]));
}

#[test]
fn end_to_end_query() {
    let stream = message(0x1000, vec![0xAAAA, 0xBBBB]);
    let mut conn = Connection::new();
    let mut store = TraceStore::new();
    assert_eq!(handle_data(&mut conn, &mut store, &stream), 0);
    match answer_query(&store, "1000") {
        QueryReply::Found(stack) => assert_eq!(stack, vec![0xAAAA, 0xBBBB]),
        _ => panic!("address 0x1000 not found"),
    }
    assert!(matches!(answer_query(&store, "2000"), QueryReply::NotFound(0x2000)));
    assert!(matches!(answer_query(&store, "zz"), QueryReply::BadAddress));
}

#[test]
fn last_writer_wins() {
    let mut stream = message(0x1000, vec![0x1]);
    stream.extend(message(0x1000, vec![0x2, 0x3]));
    let mut conn = Connection::new();
    let mut store = TraceStore::new();
    handle_data(&mut conn, &mut store, &stream);
    match answer_query(&store, "1000") {
        QueryReply::Found(stack) => assert_eq!(stack, vec![0x2, 0x3]),
        _ => panic!("address 0x1000 not found"),
    }
}

#[test]
fn store_query_never_inserted() {
    let mut store = TraceStore::new();
    assert_eq!(store.query(7), None);
    store.record(7, vec![1]);
    store.record(8, vec![2]);
    store.record(7, vec![3]);
    assert_eq!(store.query(7), Some(vec![3]));
    assert_eq!(store.query(8), Some(vec![2]));
    assert_eq!(store.query(9), None);
    assert_eq!(store.len(), 2);
}

#[test]
fn parse_address_cases() {
    assert_eq!(parse_address("1000"), Some(0x1000));
    assert_eq!(parse_address("+fF"), Some(0xff));
    assert_eq!(parse_address("ffffffffffffffff"), Some(u64::MAX));
    assert_eq!(parse_address("10000000000000000"), None);
    assert_eq!(parse_address(""), None);
    assert_eq!(parse_address("+"), None);
    assert_eq!(parse_address("-1"), None);
    assert_eq!(parse_address("0x10"), None);
    assert_eq!(parse_address("12 "), None);
}
