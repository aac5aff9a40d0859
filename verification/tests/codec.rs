use pow::codec::{
    decode_block, decode_block_hash, decode_block_status, decode_client_info, encode_block,
    encode_block_hash, encode_block_status, encode_client_info, find_bytes, find_varint, frame,
    unframe,
};
use pow::proto::{Block, BlockHash, BlockStatus, ClientInfo};
use pow::wire::{encode_fields, parse_fields, put_varint, Field, Value};

#[test]
fn varints_are_those_of_protocol_buffers() {
    for v in [0u64, 1, 127, 128, 300, 16383, 16384, u32::MAX as u64, u64::MAX] {
        let mut ours = vec![];
        put_varint(&mut ours, v);
        let mut theirs = vec![];
        prost::encoding::encode_varint(v, &mut theirs);
        assert_eq!(ours, theirs);
    }
    let mut out = vec![9];
    put_varint(&mut out, 300);
    assert_eq!(out, vec![9, 0xAC, 0x02]);
}

#[test]
fn block_status_bytes() {
    assert_eq!(encode_block_status(&BlockStatus { code: 0 }), Vec::<u8>::new());
    assert_eq!(encode_block_status(&BlockStatus { code: 500 }), vec![0x08, 0xF4, 0x03]);
    assert_eq!(
        encode_block_status(&BlockStatus { code: -1 }),
        vec![0x08, 0xFF, 0xFF, 0xFF, 0xFF, 0xFF, 0xFF, 0xFF, 0xFF, 0xFF, 0x01]
    );
    for code in [0, 1, 500, -1, -500, i32::MAX, i32::MIN] {
        let status = BlockStatus { code };
        assert_eq!(decode_block_status(&encode_block_status(&status)), Some(status));
    }
    assert_eq!(decode_block_status(&[0x08]), None);
    assert_eq!(decode_block_status(&[0x0A, 0x00]), None);
}

#[test]
fn block_hash_round_trip() {
    let h = BlockHash { id: vec![7; 32], hash: vec![0, 0, 0, 9], nonce: 0xDEAD_BEEF };
    let bytes = encode_block_hash(&h);
    assert_eq!(bytes[0], 0x0A);
    assert_eq!(bytes[1], 32);
    assert_eq!(decode_block_hash(&bytes), Some(h));
    let empty = BlockHash::default();
    assert_eq!(encode_block_hash(&empty), Vec::<u8>::new());
    assert_eq!(decode_block_hash(&[]), Some(empty));
    assert_eq!(
        encode_block_hash(&BlockHash { id: vec![], hash: vec![], nonce: 1 }),
        vec![0x18, 0x01]
    );
}

#[test]
fn block_and_client_info_round_trip() {
    let block = Block { data: b"hello world".to_vec() };
    let bytes = encode_block(&block);
    assert_eq!(&bytes[..2], &[0x0A, 11]);
    assert_eq!(&bytes[2..], b"hello world");
    assert_eq!(decode_block(&bytes), Some(block));
    assert_eq!(decode_block(&[]), Some(Block { data: vec![] }));

    let info = ClientInfo { name: "Client-1 \u{e9}".into() };
    assert_eq!(decode_client_info(&encode_client_info(&info)), Some(info));
    assert_eq!(encode_client_info(&ClientInfo { name: "A".into() }), vec![0x0A, 0x01, 0x41]);
    assert_eq!(decode_client_info(&[0x0A, 0x01, 0xFF]), None);
    assert_eq!(decode_client_info(&[]), Some(ClientInfo { name: String::new() }));
}

#[test]
fn unknown_fields_are_passed_over_and_the_last_counts() {
    // field 9 varint, field 1 bytes "a", field 7 fixed32, field 1 bytes "bc", field 8 fixed64
    let bytes = [
        0x48, 0x05, 0x0A, 0x01, b'a', 0x3D, 1, 2, 3, 4, 0x0A, 0x02, b'b', b'c', 0x41, 1, 2, 3, 4,
        5, 6, 7, 8,
    ];
    assert_eq!(decode_block(&bytes), Some(Block { data: b"bc".to_vec() }));
    let fields = parse_fields(&bytes).unwrap();
    assert_eq!(fields.len(), 5);
    assert_eq!(fields[0], Field { number: 9, value: Value::Varint(5) });
    assert_eq!(fields[2], Field { number: 7, value: Value::Fixed32(vec![1, 2, 3, 4]) });
    assert_eq!(encode_fields(&fields), bytes.to_vec());
    assert_eq!(find_bytes(&fields, 1), Some(b"bc".to_vec()));
    assert_eq!(find_bytes(&fields, 2), Some(vec![]));
    assert_eq!(find_bytes(&fields, 9), None);
    assert_eq!(find_varint(&fields, 9), Some(5));
    assert_eq!(find_varint(&fields, 3), Some(0));
    assert_eq!(find_varint(&fields, 1), None);
}

#[test]
fn broken_messages_are_refused() {
    assert_eq!(parse_fields(&[0x0A, 0x05, 1, 2]), None);
    assert_eq!(parse_fields(&[0x00, 0x01]), None);
    assert_eq!(parse_fields(&[0x0B]), None);
    assert_eq!(parse_fields(&[0x80]), None);
    assert_eq!(parse_fields(&[0x08, 0xFF, 0xFF, 0xFF, 0xFF, 0xFF, 0xFF, 0xFF, 0xFF, 0xFF, 0x02]), None);
    assert_eq!(parse_fields(&[0x08, 0x80, 0x80, 0x80, 0x80, 0x80, 0x80, 0x80, 0x80, 0x80, 0x80, 0x00]), None);
    assert_eq!(parse_fields(&[0x3D, 1, 2, 3]), None);
    assert_eq!(decode_block_hash(&[0x18, 0x01, 0x1A, 0x00]), None);
    assert_eq!(parse_fields(&[]), Some(vec![]));
}

#[test]
fn frames() {
    let framed = frame(&b"abc".to_vec()).unwrap();
    assert_eq!(framed, vec![0, 0, 0, 0, 3, b'a', b'b', b'c']);
    let mut stream = framed.clone();
    stream.extend_from_slice(&[9, 9]);
    assert_eq!(unframe(&stream), Some((b"abc".to_vec(), 8)));
    assert_eq!(unframe(&framed[..7]), None);
    assert_eq!(unframe(&[1, 0, 0, 0, 0]), None);
    assert_eq!(unframe(&[0, 0, 0, 0]), None);
    assert_eq!(unframe(&[0, 0, 0, 0, 0]), Some((vec![], 5)));
    let long = vec![5u8; 0x1_02_03];
    let framed = frame(&long).unwrap();
    assert_eq!(&framed[..5], &[0, 0, 1, 2, 3]);
    assert_eq!(unframe(&framed), Some((long, 5 + 0x1_02_03)));
}
