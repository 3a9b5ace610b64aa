//! The sync engine's decision core.
//!
//! The engine itself runs as a long-lived loop outside the library: it
//! performs the subscription, fetching and sleeping, and feeds every
//! outcome back in as an event.  The library decides: given the current
//! state and an event, `step` returns the next state and the action to
//! perform.  Decoding a block's logs into one update batch is pure and
//! lives here too, as does the bounded buffer that implements the
//! documented drop-oldest backpressure policy.
//!
//! Updates are treated as append-only: a chain reorganization is not
//! detected here.  A deployment that must survive reorgs reprocesses from
//! a confirmed-depth checkpoint by seeding a fresh store.

use vstd::prelude::*;
use crate::addr::Addr;
use crate::events::{decode_state_log, spec_decode_state_log, RawLog, RawLogView};
use crate::registry::spec_log_views;
use crate::store::PoolUpdate;

verus! {

/// How many times the log fetch of one block is attempted before the
/// engine treats the provider as lost and stops.
pub const MAX_FETCH_ATTEMPTS: u8 = 5;

/// The engine's control state.
#[derive(PartialEq, Eq, Structural, Clone, Copy, Debug)]
pub enum SyncState {
    /// Not started; nothing subscribed.
    Idle,
    /// Subscribed, waiting for the next block notification.
    Subscribed,
    /// Fetching the logs of one block; `attempts` fetches have failed so
    /// far.
    Processing { block: u64, attempts: u8 },
    /// Shut down; the subscription is released.
    Stopped,
}

/// What the outside loop reports to the engine.
#[derive(PartialEq, Eq, Structural, Clone, Copy, Debug)]
pub enum SyncEvent {
    /// The engine is started.
    Start,
    /// The provider pushed a new block header.
    BlockArrived { block: u64 },
    /// The log fetch of the block being processed succeeded.
    FetchSucceeded,
    /// The log fetch failed with a transient provider error.
    FetchFailed,
    /// The consumer dropped its end of the update channel.
    ConsumerClosed,
}

/// What the outside loop must do next.
#[derive(PartialEq, Eq, Structural, Clone, Copy, Debug)]
pub enum SyncAction {
    /// Nothing; wait for the next event.
    Wait,
    /// Open the block subscription.
    Subscribe,
    /// Fetch the logs of `block` whose topics match tracked pools.
    FetchLogs { block: u64 },
    /// Wait out one bounded backoff step (`attempt` failures so far), then
    /// fetch the logs of `block` again.
    RetryFetch { block: u64, attempt: u8 },
    /// Decode the fetched logs, apply them to the store as one batch, and
    /// emit the touched addresses.
    ApplyBatch { block: u64 },
    /// Release the subscription and stop.
    Halt,
}

/// The engine's transition function.  A block arriving while another is
/// in flight is left to the outside queue (the engine answers `Wait`);
/// closing the consumer end stops the engine from any state; a fetch
/// failure retries with bounded backoff and gives the engine up once the
/// bound is reached.
pub open spec fn spec_step(s: SyncState, e: SyncEvent) -> (SyncState, SyncAction) {
    match (s, e) {
        (SyncState::Idle, SyncEvent::Start) => (SyncState::Subscribed, SyncAction::Subscribe),
        (SyncState::Subscribed, SyncEvent::BlockArrived { block }) => (
            SyncState::Processing { block, attempts: 0 },
            SyncAction::FetchLogs { block },
        ),
        (SyncState::Processing { block, .. }, SyncEvent::FetchSucceeded) => (
            SyncState::Subscribed,
            SyncAction::ApplyBatch { block },
        ),
        (SyncState::Processing { block, attempts }, SyncEvent::FetchFailed) => {
            if attempts < MAX_FETCH_ATTEMPTS - 1 {
                (
                    SyncState::Processing { block, attempts: (attempts + 1) as u8 },
                    SyncAction::RetryFetch { block, attempt: (attempts + 1) as u8 },
                )
            } else {
                (SyncState::Stopped, SyncAction::Halt)
            }
        },
        (_, SyncEvent::ConsumerClosed) => (SyncState::Stopped, SyncAction::Halt),
        _ => (s, SyncAction::Wait),
    }
}

/// Performs one engine transition, exactly as `spec_step` says.
pub fn step(s: SyncState, e: SyncEvent) -> (r: (SyncState, SyncAction))
    ensures
        r == spec_step(s, e),
{
    match (s, e) {
        (SyncState::Idle, SyncEvent::Start) => (SyncState::Subscribed, SyncAction::Subscribe),
        (SyncState::Subscribed, SyncEvent::BlockArrived { block }) => (
            SyncState::Processing { block, attempts: 0 },
            SyncAction::FetchLogs { block },
        ),
        (SyncState::Processing { block, .. }, SyncEvent::FetchSucceeded) => (
            SyncState::Subscribed,
            SyncAction::ApplyBatch { block },
        ),
        (SyncState::Processing { block, attempts }, SyncEvent::FetchFailed) => {
            if attempts < MAX_FETCH_ATTEMPTS - 1 {
                (
                    SyncState::Processing { block, attempts: attempts + 1 },
                    SyncAction::RetryFetch { block, attempt: attempts + 1 },
                )
            } else {
                (SyncState::Stopped, SyncAction::Halt)
            }
        },
        (_, SyncEvent::ConsumerClosed) => (SyncState::Stopped, SyncAction::Halt),
        _ => (s, SyncAction::Wait),
    }
}

/// The update batch decoded from a block's logs, in log order, appended
/// to `acc`: each log that decodes contributes its delta; malformed logs
/// contribute nothing.
pub open spec fn spec_decode_fold(logs: Seq<RawLogView>, acc: Seq<PoolUpdate>) -> Seq<PoolUpdate>
    decreases logs.len(),
{
    if logs.len() == 0 {
        acc
    } else {
        let acc2 = match spec_decode_state_log(logs[0]) {
            Result::Err(_) => acc,
            Result::Ok(u) => acc.push(u),
        };
        spec_decode_fold(logs.drop_first(), acc2)
    }
}

/// How many of the logs fail to decode.
pub open spec fn spec_decode_errors(logs: Seq<RawLogView>) -> int
    decreases logs.len(),
{
    if logs.len() == 0 {
        0
    } else {
        (if spec_decode_state_log(logs[0]) is Err {
            1int
        } else {
            0int
        }) + spec_decode_errors(logs.drop_first())
    }
}

/// Folding one more log appends its delta exactly when it decodes.
proof fn lemma_decode_fold_snoc(logs: Seq<RawLogView>, l: RawLogView, acc: Seq<PoolUpdate>)
    ensures
        spec_decode_fold(logs.push(l), acc) == ({
            let r = spec_decode_fold(logs, acc);
            match spec_decode_state_log(l) {
                Result::Err(_) => r,
                Result::Ok(u) => r.push(u),
            }
        }),
        spec_decode_errors(logs.push(l)) == spec_decode_errors(logs) + (if spec_decode_state_log(
            l,
        ) is Err {
            1int
        } else {
            0int
        }),
    decreases logs.len(),
{
    if logs.len() == 0 {
        assert(logs.push(l)[0] == l);
        assert(logs.push(l).drop_first() =~= logs);
        let acc2 = match spec_decode_state_log(l) {
            Result::Err(_) => acc,
            Result::Ok(u) => acc.push(u),
        };
        assert(spec_decode_fold(logs, acc) == acc);
        assert(spec_decode_fold(logs, acc2) == acc2);
        assert(spec_decode_errors(logs) == 0);
    } else {
        assert(logs.push(l)[0] == logs[0]);
        assert(logs.push(l).drop_first() =~= logs.drop_first().push(l));
        let acc2 = match spec_decode_state_log(logs[0]) {
            Result::Err(_) => acc,
            Result::Ok(u) => acc.push(u),
        };
        lemma_decode_fold_snoc(logs.drop_first(), l, acc2);
    }
}

/// Decodes all state-changed logs of one block into a single update
/// batch, keeping log order (and so log-index order within each pool as
/// delivered by the provider).  Malformed logs are skipped and counted;
/// one bad log never aborts the block.
pub fn process_block_logs(logs: &Vec<RawLog>) -> (r: (Vec<PoolUpdate>, usize))
    ensures
        r.0@ == spec_decode_fold(spec_log_views(logs@), Seq::<PoolUpdate>::empty()),
        r.1 == spec_decode_errors(spec_log_views(logs@)),
{
    let mut updates: Vec<PoolUpdate> = Vec::new();
    let mut errors: usize = 0;
    let mut k: usize = 0;
    proof {
        assert(spec_log_views(logs@).take(0) =~= Seq::<RawLogView>::empty());
    }
    while k < logs.len()
        invariant
            k <= logs.len(),
            updates@ == spec_decode_fold(
                spec_log_views(logs@).take(k as int),
                Seq::<PoolUpdate>::empty(),
            ),
            errors == spec_decode_errors(spec_log_views(logs@).take(k as int)),
            errors <= k,
        decreases logs.len() - k,
    {
        let ghost lv = spec_log_views(logs@);
        proof {
            assert(lv.take(k as int + 1) =~= lv.take(k as int).push(lv[k as int]));
            lemma_decode_fold_snoc(lv.take(k as int), lv[k as int], Seq::<PoolUpdate>::empty());
        }
        match decode_state_log(&logs[k]) {
            Result::Err(_) => {
                errors = errors + 1;
            },
            Result::Ok(u) => {
                updates.push(u);
            },
        }
        k = k + 1;
    }
    proof {
        assert(spec_log_views(logs@).take(logs@.len() as int) =~= spec_log_views(logs@));
    }
    (updates, errors)
}

/// The models of the queued batches, oldest first.
pub open spec fn spec_batch_views(batches: Seq<Vec<Addr>>) -> Seq<Seq<Addr>> {
    batches.map_values(|b: Vec<Addr>| b@)
}

/// The mathematical model of the update buffer.
#[verifier::ext_equal]
pub struct BufferView {
    pub batches: Seq<Seq<Addr>>,
    pub capacity: usize,
}

/// The bounded buffer between the engine and its consumers: emitted
/// update batches queue here.  When a new batch arrives at a full buffer
/// the oldest unconsumed batch is dropped — the documented data-loss
/// policy — so block processing itself is never blocked.
pub struct UpdateBuffer {
    batches: Vec<Vec<Addr>>,
    capacity: usize,
}

impl View for UpdateBuffer {
    type V = BufferView;

    closed spec fn view(&self) -> BufferView {
        BufferView { batches: spec_batch_views(self.batches@), capacity: self.capacity }
    }
}

impl UpdateBuffer {
    /// The buffer never holds more than its capacity.
    pub open spec fn wf(self) -> bool {
        &&& self@.capacity >= 1
        &&& self@.batches.len() <= self@.capacity
    }

    /// An empty buffer holding at most `capacity` batches.
    pub fn new(capacity: usize) -> (r: UpdateBuffer)
        requires
            capacity >= 1,
        ensures
            r.wf(),
            r@.capacity == capacity,
            r@.batches.len() == 0,
    {
        let r = UpdateBuffer { batches: Vec::new(), capacity };
        proof {
            assert(spec_batch_views(r.batches@) =~= Seq::<Seq<Addr>>::empty());
        }
        r
    }

    /// How many batches wait for the consumer.
    pub fn len(&self) -> (r: usize)
        ensures
            r == self@.batches.len(),
    {
        self.batches.len()
    }

    /// Queues one emitted batch.  At capacity, the oldest unconsumed
    /// batch is dropped to make room; `dropped` reports that loss.
    pub fn push(&mut self, batch: Vec<Addr>) -> (dropped: bool)
        requires
            old(self).wf(),
        ensures
            final(self).wf(),
            final(self)@.capacity == old(self)@.capacity,
            dropped == (old(self)@.batches.len() == old(self)@.capacity),
            final(self)@.batches == (if old(self)@.batches.len() == old(self)@.capacity {
                old(self)@.batches.drop_first().push(batch@)
            } else {
                old(self)@.batches.push(batch@)
            }),
    {
        let dropped = self.batches.len() == self.capacity;
        if dropped {
            let ghost before = self.batches@;
            let _oldest = self.batches.remove(0);
            proof {
                assert(spec_batch_views(self.batches@) =~= spec_batch_views(before).drop_first());
            }
        }
        let ghost mid = self.batches@;
        self.batches.push(batch);
        proof {
            assert(spec_batch_views(self.batches@) =~= spec_batch_views(mid).push(batch@));
        }
        dropped
    }

    /// Hands the oldest batch to the consumer, if one waits.
    pub fn pop(&mut self) -> (r: Option<Vec<Addr>>)
        requires
            old(self).wf(),
        ensures
            final(self).wf(),
            final(self)@.capacity == old(self)@.capacity,
            match r {
                Option::Some(b) => old(self)@.batches.len() > 0 && b@ == old(
                    self,
                )@.batches[0] && final(self)@.batches == old(self)@.batches.drop_first(),
                Option::None => old(self)@.batches.len() == 0 && final(self)@.batches == old(
                    self,
                )@.batches,
            },
    {
        if self.batches.len() == 0 {
            return None;
        }
        let ghost before = self.batches@;
        let b = self.batches.remove(0);
        proof {
            assert(spec_batch_views(self.batches@) =~= spec_batch_views(before).drop_first());
        }
        Some(b)
    }
}

} // verus!
