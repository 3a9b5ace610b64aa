use amm_engine::addr::Addr;
use amm_engine::sync::{
    step, SyncAction, SyncEvent, SyncState, UpdateBuffer, MAX_FETCH_ATTEMPTS,
};

fn addr(lo: u128) -> Addr {
    Addr { hi: 0, lo }
}

#[test]
fn engine_subscribes_then_processes_blocks() {
    let (s, a) = step(SyncState::Idle, SyncEvent::Start);
    assert_eq!(s, SyncState::Subscribed);
    assert_eq!(a, SyncAction::Subscribe);

    let (s, a) = step(s, SyncEvent::BlockArrived { block: 7 });
    assert_eq!(s, SyncState::Processing { block: 7, attempts: 0 });
    assert_eq!(a, SyncAction::FetchLogs { block: 7 });

    let (s, a) = step(s, SyncEvent::FetchSucceeded);
    assert_eq!(s, SyncState::Subscribed);
    assert_eq!(a, SyncAction::ApplyBatch { block: 7 });
}

#[test]
fn fetch_failures_retry_with_a_bound() {
    let mut s = SyncState::Processing { block: 7, attempts: 0 };
    for attempt in 1..MAX_FETCH_ATTEMPTS {
        let (next, a) = step(s, SyncEvent::FetchFailed);
        assert_eq!(next, SyncState::Processing { block: 7, attempts: attempt });
        assert_eq!(a, SyncAction::RetryFetch { block: 7, attempt });
        s = next;
    }
    // The bound is reached: the provider is treated as lost.
    let (next, a) = step(s, SyncEvent::FetchFailed);
    assert_eq!(next, SyncState::Stopped);
    assert_eq!(a, SyncAction::Halt);
}

#[test]
fn closing_the_consumer_stops_cleanly_from_any_state() {
    for s in [
        SyncState::Idle,
        SyncState::Subscribed,
        SyncState::Processing { block: 3, attempts: 1 },
        SyncState::Stopped,
    ] {
        let (next, a) = step(s, SyncEvent::ConsumerClosed);
        assert_eq!(next, SyncState::Stopped);
        assert_eq!(a, SyncAction::Halt);
    }
}

#[test]
fn unexpected_events_are_ignored() {
    let (s, a) = step(SyncState::Stopped, SyncEvent::BlockArrived { block: 9 });
    assert_eq!(s, SyncState::Stopped);
    assert_eq!(a, SyncAction::Wait);
    // A block arriving while another is in flight waits in the outside queue.
    let busy = SyncState::Processing { block: 7, attempts: 0 };
    let (s, a) = step(busy, SyncEvent::BlockArrived { block: 8 });
    assert_eq!(s, busy);
    assert_eq!(a, SyncAction::Wait);
}

#[test]
fn buffer_drops_the_oldest_batch_when_full() {
    let mut buf = UpdateBuffer::new(2);
    assert!(!buf.push(vec![addr(1)]));
    assert!(!buf.push(vec![addr(2)]));
    assert_eq!(buf.len(), 2);
    // Full: the documented policy drops the oldest unconsumed batch.
    assert!(buf.push(vec![addr(3)]));
    assert_eq!(buf.len(), 2);
    assert_eq!(buf.pop().unwrap(), vec![addr(2)]);
    assert_eq!(buf.pop().unwrap(), vec![addr(3)]);
    assert!(buf.pop().is_none());
}

#[test]
fn buffer_hands_batches_out_in_arrival_order() {
    let mut buf = UpdateBuffer::new(8);
    buf.push(vec![addr(1)]);
    buf.push(vec![addr(2), addr(3)]);
    assert_eq!(buf.pop().unwrap(), vec![addr(1)]);
    assert_eq!(buf.pop().unwrap(), vec![addr(2), addr(3)]);
    assert!(buf.pop().is_none());
}
