use pow::engine::{
    blake3_base_hash, blake3_hash, get_block_id, has_zero_prefix, nonce_bytes, nonce_matches,
    pow_in, seal,
};
use pow::proto::{Block, BlockHash};

#[test]
fn happy_path_at_difficulty_one() {
    let block = Block { data: b"hello world".to_vec() };
    let found = pow_in(&block, 1, 0, u32::MAX).expect("a nonce exists");
    assert_eq!(found.hash[0], 0);
    assert_eq!(found.hash, blake3_hash(blake3_base_hash(b"hello world"), found.nonce));
    assert_eq!(found.id, get_block_id(&block));
    assert_eq!(found.id, blake3::hash(b"hello world").as_bytes().to_vec());
    assert!(has_zero_prefix(&found.hash, 1));
    assert_eq!((found.id.len(), found.hash.len()), (32, 32));
}

#[test]
fn extending_a_state_hashes_payload_then_big_endian_nonce() {
    let mut all = b"payload".to_vec();
    all.extend_from_slice(&0x0102_0304u32.to_be_bytes());
    assert_eq!(
        blake3_hash(blake3_base_hash(b"payload"), 0x0102_0304),
        blake3::hash(&all).as_bytes().to_vec()
    );
    assert_eq!(nonce_bytes(0x0102_0304), vec![1, 2, 3, 4]);
    assert_eq!(nonce_bytes(u32::MAX), vec![255, 255, 255, 255]);
    assert_eq!(nonce_bytes(0), vec![0, 0, 0, 0]);
    assert_eq!(blake3_hash(blake3_base_hash(b""), 0).len(), 32);
}

#[test]
fn a_state_can_be_extended_again_and_again() {
    let state = blake3_base_hash(b"abc");
    let one = blake3_hash(state.clone(), 1);
    let two = blake3_hash(state.clone(), 2);
    assert_ne!(one, two);
    assert_eq!(one, blake3_hash(state, 1));
}

#[test]
fn empty_payload_is_searched() {
    let block = Block { data: vec![] };
    let found = pow_in(&block, 1, 0, u32::MAX).expect("a nonce exists");
    assert_eq!(found.hash[0], 0);
    assert_eq!(found.id, blake3::hash(b"").as_bytes().to_vec());
}

#[test]
fn difficulty_zero_accepts_any_nonce() {
    let block = Block { data: b"x".to_vec() };
    let found = pow_in(&block, 0, 0, 0).expect("nonce zero is accepted");
    assert_eq!(found.nonce, 0);
    assert_eq!(found.hash, blake3_hash(blake3_base_hash(b"x"), 0));
    let found = pow_in(&block, 0, 17, 17).expect("the only nonce is accepted");
    assert_eq!(found.nonce, 17);
}

#[test]
fn a_window_without_a_match_is_exhausted() {
    let block = Block { data: b"hello world".to_vec() };
    assert_eq!(pow_in(&block, 33, 0, 1000), None);
    assert_eq!(pow_in(&block, 32, 0, 1000), None);
    assert_eq!(pow_in(&block, 1, 5, 4), None);
}

#[test]
fn the_winner_lies_in_the_window_and_matches() {
    let block = Block { data: b"window".to_vec() };
    let first = pow_in(&block, 1, 0, u32::MAX).unwrap();
    let again = pow_in(&block, 1, first.nonce, first.nonce).unwrap();
    assert_eq!(again, first);
    assert!(nonce_matches(&blake3_base_hash(b"window"), 1, first.nonce));
}

#[test]
fn identical_payloads_share_the_id() {
    let a = pow_in(&Block { data: b"same".to_vec() }, 1, 0, u32::MAX).unwrap();
    let b = pow_in(&Block { data: b"same".to_vec() }, 0, 9, 9).unwrap();
    assert_eq!(a.id, b.id);
    let c = pow_in(&Block { data: b"other".to_vec() }, 0, 9, 9).unwrap();
    assert_ne!(a.id, c.id);
}

#[test]
fn zero_prefix_check() {
    assert!(has_zero_prefix(&vec![0, 0, 1], 2));
    assert!(!has_zero_prefix(&vec![0, 0, 1], 3));
    assert!(!has_zero_prefix(&vec![0, 0], 3));
    assert!(has_zero_prefix(&vec![], 0));
    assert!(has_zero_prefix(&vec![9], 0));
}

#[test]
fn sealing_a_search_result() {
    let block = Block { data: b"seal".to_vec() };
    assert_eq!(seal(&block, blake3_base_hash(b"seal"), None), None);
    let sealed = seal(&block, blake3_base_hash(b"seal"), Some(7)).unwrap();
    assert_eq!(
        sealed,
        BlockHash {
            id: blake3::hash(b"seal").as_bytes().to_vec(),
            hash: blake3_hash(blake3_base_hash(b"seal"), 7),
            nonce: 7,
        }
    );
    assert_eq!(sealed.clone(), sealed);
}
