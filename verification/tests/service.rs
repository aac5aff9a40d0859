use pow::dispatch::PowService;
use pow::mailbox::{Mailbox, SendError};
use pow::proto::{Block, BlockHash, ClientInfo};
use pow::service::{surrogate, Delivery, Polled, Shared, ACCEPTED, BUFFER_SIZE, REJECTED};

#[test]
fn mailbox_is_first_in_first_out_and_bounded() {
    let mut m: Mailbox<Block> = Mailbox::new(2);
    assert!(m.is_empty());
    assert_eq!(m.try_send(Block { data: vec![1] }), Ok(()));
    assert_eq!(m.try_send(Block { data: vec![2] }), Ok(()));
    assert!(m.is_full());
    assert_eq!(m.try_send(Block { data: vec![3] }), Err(SendError::Full));
    assert_eq!(m.len(), 2);
    assert_eq!(m.try_recv(), Some(Block { data: vec![1] }));
    assert_eq!(m.try_send(Block { data: vec![4] }), Ok(()));
    m.close();
    assert!(m.is_closed());
    assert_eq!(m.try_send(Block { data: vec![5] }), Err(SendError::Closed));
    assert_eq!(m.try_recv(), Some(Block { data: vec![2] }));
    assert_eq!(m.try_recv(), Some(Block { data: vec![4] }));
    assert_eq!(m.try_recv(), None);
    assert_eq!(m.capacity(), 2);
}

#[test]
fn surrogate_for_an_exhausted_search() {
    assert_eq!(surrogate(&None), Delivery::Exhausted);
    let h = BlockHash { id: vec![1], hash: vec![2], nonce: 3 };
    assert_eq!(surrogate(&Some(h.clone())), Delivery::Found(h));
}

#[test]
fn happy_path() {
    let mut service = PowService::new();
    let a = service.subscribe(ClientInfo { name: "A".into() });
    assert_eq!(service.poll(a), Polled::Pending);
    assert_eq!(service.submit(Block { data: b"hello world".to_vec() }).code, 0);
    // The engine of the service works at the standard difficulty; the bridge is played
    // here at difficulty one to keep the test quick.
    let block = service.take_submission().unwrap();
    let found = pow::engine::pow_in(&block, 1, 0, u32::MAX);
    assert_eq!(service.post_result(found.clone()), None);
    assert_eq!(service.relay(), Some(vec![]));
    match service.poll(a) {
        Polled::Item(Delivery::Found(h)) => {
            assert_eq!(h.hash[0], 0);
            assert_eq!(
                h.hash,
                pow::engine::blake3_hash(pow::engine::blake3_base_hash(b"hello world"), h.nonce)
            );
            assert_eq!(h.id, blake3::hash(b"hello world").as_bytes().to_vec());
            assert_eq!(Some(h), found);
        }
        other => panic!("unexpected {:?}", other),
    }
    assert_eq!(service.poll(a), Polled::Pending);
    assert_eq!(service.relay(), None);
}

#[test]
fn multi_subscriber_fan_out() {
    let mut shared = Shared::new();
    let a = shared.register("A".into());
    let b = shared.register("B".into());
    let h = BlockHash { id: vec![1; 32], hash: vec![0; 32], nonce: 9 };
    shared.broadcast(Some(h.clone()));
    assert_eq!(shared.poll(a), Polled::Item(Delivery::Found(h.clone())));
    assert_eq!(shared.poll(b), Polled::Item(Delivery::Found(h)));
    assert_eq!(shared.poll(a), Polled::Pending);
    assert_eq!(shared.poll(b), Polled::Pending);
    assert_eq!(shared.len(), 2);
}

#[test]
fn order_preservation() {
    let mut service = PowService::new();
    let a = service.subscribe(ClientInfo { name: "A".into() });
    for payload in [&b"one"[..], &b"two"[..], &b"three"[..]] {
        assert_eq!(service.submit(Block { data: payload.to_vec() }).code, ACCEPTED);
    }
    while let Some(block) = service.take_submission() {
        assert_eq!(service.post_result(pow::engine::pow_in(&block, 1, 0, u32::MAX)), None);
    }
    while service.relay().is_some() {}
    for payload in [&b"one"[..], &b"two"[..], &b"three"[..]] {
        match service.poll(a) {
            Polled::Item(Delivery::Found(h)) => {
                assert_eq!(h.id, blake3::hash(payload).as_bytes().to_vec())
            }
            other => panic!("unexpected {:?}", other),
        }
    }
    assert_eq!(service.poll(a), Polled::Pending);
}

#[test]
fn name_collision() {
    let mut shared = Shared::new();
    let first = shared.register("A".into());
    let second = shared.register("A".into());
    assert_ne!(first, second);
    assert_eq!(shared.poll(first), Polled::Ended);
    assert_eq!(shared.len(), 1);
    shared.broadcast(None);
    assert_eq!(shared.poll(first), Polled::Ended);
    assert_eq!(shared.poll(second), Polled::Item(Delivery::Exhausted));
}

#[test]
fn a_displaced_stream_is_drained_before_it_ends() {
    let mut shared = Shared::new();
    let first = shared.register("A".into());
    shared.broadcast(None);
    let second = shared.register("A".into());
    shared.broadcast(None);
    assert_eq!(shared.poll(first), Polled::Item(Delivery::Exhausted));
    assert_eq!(shared.poll(first), Polled::Ended);
    assert_eq!(shared.poll(second), Polled::Item(Delivery::Exhausted));
    assert_eq!(shared.poll(second), Polled::Pending);
}

#[test]
fn backpressure() {
    let mut service = PowService::new();
    for i in 0..BUFFER_SIZE {
        assert_eq!(service.submit(Block { data: vec![i as u8] }).code, ACCEPTED);
    }
    assert_eq!(service.submit(Block { data: vec![99] }).code, REJECTED);
    assert_eq!(service.submit(Block { data: vec![99] }).code, 500);
    assert_eq!(service.take_submission(), Some(Block { data: vec![0] }));
    assert_eq!(service.submit(Block { data: vec![100] }).code, 0);
}

#[test]
fn backpressure_with_a_buffer_of_two() {
    let mut service = PowService::with_buffer(2);
    assert_eq!(service.capacity(), 2);
    let codes: Vec<i32> =
        (0..4u8).map(|i| service.submit(Block { data: vec![i] }).code).collect();
    assert_eq!(codes, vec![0, 0, 500, 500]);
    assert_eq!(service.waiting(), 2);
    assert_eq!(service.take_submission(), Some(Block { data: vec![0] }));
    assert_eq!(service.take_submission(), Some(Block { data: vec![1] }));
    assert_eq!(service.take_submission(), None);
}

#[test]
fn a_registry_with_a_buffer_of_one() {
    let mut shared = Shared::with_buffer(1);
    assert_eq!(shared.capacity(), 1);
    let a = shared.register("A".into());
    assert!(shared.broadcast(None).is_empty());
    assert_eq!(shared.broadcast(None), vec!["A".to_string()]);
    assert_eq!(shared.poll(a), Polled::Item(Delivery::Exhausted));
    assert_eq!(shared.poll(a), Polled::Ended);
}

#[test]
fn a_closed_bridge_rejects() {
    let mut service = PowService::new();
    assert_eq!(service.submit(Block { data: vec![1] }).code, 0);
    service.shutdown();
    assert_eq!(service.submit(Block { data: vec![2] }).code, 500);
    assert_eq!(service.take_submission(), Some(Block { data: vec![1] }));
    assert_eq!(service.take_submission(), None);
}

#[test]
fn exhaustion() {
    let mut service = PowService::new();
    let a = service.subscribe(ClientInfo { name: "A".into() });
    let b = service.subscribe(ClientInfo { name: "B".into() });
    assert_eq!(service.submit(Block { data: b"hard".to_vec() }).code, 0);
    let block = service.take_submission().unwrap();
    assert_eq!(service.post_result(pow::engine::pow_in(&block, 33, 0, 100)), None);
    assert_eq!(service.relay(), Some(vec![]));
    assert_eq!(service.poll(a), Polled::Item(Delivery::Exhausted));
    assert_eq!(service.poll(b), Polled::Item(Delivery::Exhausted));
    assert_eq!(service.poll(a), Polled::Pending);
    let h = BlockHash { id: vec![1], hash: vec![0], nonce: 1 };
    assert_eq!(service.post_result(Some(h.clone())), None);
    assert_eq!(service.relay(), Some(vec![]));
    assert_eq!(service.poll(a), Polled::Item(Delivery::Found(h.clone())));
    assert_eq!(service.poll(b), Polled::Item(Delivery::Found(h)));
}

#[test]
fn a_subscriber_that_does_not_read_is_given_up() {
    let mut shared = Shared::new();
    let slow = shared.register("slow".into());
    let quick = shared.register("quick".into());
    for i in 0..(BUFFER_SIZE as u32 + 1) {
        let refused = shared.broadcast(Some(BlockHash { id: vec![], hash: vec![], nonce: i }));
        if i < BUFFER_SIZE as u32 {
            assert!(refused.is_empty());
        } else {
            assert_eq!(refused, vec!["slow".to_string()]);
        }
        assert_eq!(
            shared.poll(quick),
            Polled::Item(Delivery::Found(BlockHash { id: vec![], hash: vec![], nonce: i }))
        );
    }
    for i in 0..BUFFER_SIZE as u32 {
        assert_eq!(
            shared.poll(slow),
            Polled::Item(Delivery::Found(BlockHash { id: vec![], hash: vec![], nonce: i }))
        );
    }
    assert_eq!(shared.poll(slow), Polled::Ended);
    assert_eq!(shared.poll(quick), Polled::Pending);
    assert_eq!(shared.len(), 1);
}

#[test]
fn cancelling_forgets_the_stream() {
    let mut service = PowService::new();
    let a = service.subscribe(ClientInfo { name: "A".into() });
    service.cancel(a);
    assert_eq!(service.poll(a), Polled::Ended);
    service.cancel(a);
    assert!(service.has_tickets());
}

#[test]
fn results_queue_gives_back_what_it_cannot_take() {
    let mut service = PowService::new();
    for _ in 0..BUFFER_SIZE {
        assert_eq!(service.post_result(None), None);
    }
    let h = BlockHash { id: vec![1], hash: vec![2], nonce: 3 };
    assert_eq!(service.post_result(Some(h.clone())), Some(Some(h)));
    assert!(!service.has_work());
    assert!(!service.bridge_step());
}

#[test]
fn streams_end_when_the_service_is_done() {
    let mut service = PowService::new();
    let a = service.subscribe(ClientInfo { name: "A".into() });
    assert_eq!(service.submit(Block { data: vec![1] }).code, 0);
    assert!(!service.wind_down());
    service.shutdown();
    assert!(!service.is_accepting());
    assert!(!service.wind_down());
    let block = service.take_submission().unwrap();
    assert_eq!(service.post_result(pow::engine::pow_in(&block, 0, 3, 3)), None);
    assert!(!service.wind_down());
    assert_eq!(service.relay(), Some(vec![]));
    assert!(service.wind_down());
    assert!(matches!(service.poll(a), Polled::Item(Delivery::Found(h)) if h.nonce == 3));
    assert_eq!(service.poll(a), Polled::Ended);
}
