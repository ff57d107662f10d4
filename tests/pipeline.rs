use swap_indexer::pipeline::{BatchingConsumer, HandOff, SendError};

#[test]
fn hand_off_keeps_order() {
    let mut h = HandOff::new(8);
    for i in 0..5u32 {
        assert!(h.try_send(i).is_ok());
    }
    let mut out = Vec::new();
    while let Some(x) = h.recv() {
        out.push(x);
    }
    assert_eq!(out, vec![0, 1, 2, 3, 4]);
    assert!(h.recv().is_none());
}

#[test]
fn full_hand_off_returns_the_record_and_loses_nothing() {
    let mut h = HandOff::new(2);
    assert!(h.try_send(1u32).is_ok());
    assert!(h.try_send(2u32).is_ok());
    match h.try_send(3u32) {
        Err(SendError::Full(x)) => assert_eq!(x, 3),
        _ => panic!("expected the record back"),
    }
    assert_eq!(h.len(), 2);
    // the consumer resumes: the waiting producer offers the same record again
    assert_eq!(h.recv(), Some(1));
    assert!(h.try_send(3u32).is_ok());
    assert_eq!(h.recv(), Some(2));
    assert_eq!(h.recv(), Some(3));
    assert_eq!(h.recv(), None);
}

#[test]
fn closed_hand_off_refuses_for_good() {
    let mut h = HandOff::new(4);
    assert!(h.receiver_open());
    h.close_receiver();
    assert!(!h.receiver_open());
    match h.try_send(7u32) {
        Err(SendError::Closed(x)) => assert_eq!(x, 7),
        _ => panic!("expected a closed hand-off"),
    }
    assert_eq!(h.len(), 0);
    assert_eq!(h.capacity(), 4);
}

#[test]
fn batches_of_ten_in_order_with_partial_held_back() {
    let mut c = BatchingConsumer::new(10);
    let mut committed: Vec<Vec<u32>> = Vec::new();
    for i in 0..25u32 {
        if let Some(b) = c.accept(i) {
            committed.push(b);
        }
    }
    assert_eq!(committed.len(), 2);
    assert_eq!(committed[0], (0..10).collect::<Vec<u32>>());
    assert_eq!(committed[1], (10..20).collect::<Vec<u32>>());
    assert_eq!(c.pending_len(), 5);
}

#[test]
fn batch_below_threshold_is_not_committed() {
    let mut c = BatchingConsumer::new(10);
    for i in 0..9u32 {
        assert!(c.accept(i).is_none());
    }
    assert_eq!(c.pending_len(), 9);
    assert_eq!(c.accept(9), Some((0..10).collect::<Vec<u32>>()));
    assert_eq!(c.pending_len(), 0);
}

#[test]
fn batch_size_one_commits_every_record() {
    let mut c = BatchingConsumer::new(1);
    assert_eq!(c.accept(5u32), Some(vec![5]));
    assert_eq!(c.accept(6u32), Some(vec![6]));
}

#[test]
fn stalled_consumer_then_resume_delivers_everything_in_order() {
    let mut h = HandOff::new(3);
    let mut c = BatchingConsumer::new(2);
    let mut sink: Vec<u32> = Vec::new();
    let mut next = 0u32;
    let mut refused = 0;
    // producer runs ahead while the consumer is paused
    while next < 6 {
        match h.try_send(next) {
            Ok(()) => next += 1,
            Err(SendError::Full(x)) => {
                assert_eq!(x, next);
                refused += 1;
                // the consumer resumes for one record
                if let Some(r) = h.recv() {
                    if let Some(b) = c.accept(r) {
                        sink.extend(b);
                    }
                }
            }
            Err(SendError::Closed(_)) => panic!("consumer is alive"),
        }
    }
    while let Some(r) = h.recv() {
        if let Some(b) = c.accept(r) {
            sink.extend(b);
        }
    }
    assert!(refused > 0);
    assert_eq!(sink, vec![0, 1, 2, 3, 4, 5]);
}

#[test]
fn accept_all_matches_batches_of_ten() {
    let mut c = BatchingConsumer::new(10);
    let committed = c.accept_all((0..25u32).collect());
    assert_eq!(committed, vec![(0..10).collect::<Vec<u32>>(), (10..20).collect::<Vec<u32>>()]);
    assert_eq!(c.pending_len(), 5);
    let none = c.accept_all(Vec::new());
    assert!(none.is_empty());
}

#[test]
fn drain_into_loses_nothing_after_a_stall() {
    let mut h = HandOff::new(4);
    let mut c = BatchingConsumer::new(3);
    let mut sink: Vec<u32> = Vec::new();
    let mut next = 0u32;
    while next < 11 {
        match h.try_send(next) {
            Ok(()) => next += 1,
            Err(SendError::Full(x)) => {
                assert_eq!(x, next);
                for b in h.drain_into(&mut c) {
                    assert_eq!(b.len(), 3);
                    sink.extend(b);
                }
                assert_eq!(h.len(), 0);
            }
            Err(SendError::Closed(_)) => panic!("consumer is alive"),
        }
    }
    for b in h.drain_into(&mut c) {
        sink.extend(b);
    }
    assert_eq!(sink, (0..9).collect::<Vec<u32>>());
    assert_eq!(c.pending_len(), 2);
}
