//! The authoritative mapping from pool address to current pool state.
//!
//! The store owns every tracked `Pool`.  Readers take a point-in-time
//! snapshot (a structural copy); all mutation is funnelled through `seed`
//! and `apply_updates`.  Deltas carry absolute numeric state, which makes
//! re-applying a decoded log a no-op.

use vstd::prelude::*;
use crate::addr::Addr;
use crate::types::{Pool, PoolVariant, PoolView, VariantView};

verus! {

/// An absolute numeric-state delta decoded from one state-changed log.
#[derive(PartialEq, Eq, Structural, Clone, Copy, Debug)]
pub enum StateDelta {
    /// New absolute reserves of a constant-product pool.
    Reserves { reserve0: u128, reserve1: u128 },
    /// New point state of a concentrated-liquidity pool.
    PointState { liquidity: u128, sqrt_price: u128, tick: i32 },
}

/// One decoded state-changed log: the pool it touches, its position in the
/// chain, and the absolute numeric state it carries.
#[derive(PartialEq, Eq, Structural, Clone, Copy, Debug)]
pub struct PoolUpdate {
    pub address: Addr,
    pub block: u64,
    pub log_index: u64,
    pub delta: StateDelta,
}

/// Applies a delta to a variant payload.  A delta of the wrong kind for the
/// variant leaves the payload unchanged; a matching delta replaces the
/// numeric state wholesale and keeps the fee and the tick schedule.
pub open spec fn spec_apply_delta(v: VariantView, d: StateDelta) -> VariantView {
    match (v, d) {
        (
            VariantView::ConstantProduct { fee_bp, .. },
            StateDelta::Reserves { reserve0, reserve1 },
        ) => VariantView::ConstantProduct { reserve0, reserve1, fee_bp },
        (
            VariantView::ConcentratedLiquidity { fee_bp, bands, .. },
            StateDelta::PointState { liquidity, sqrt_price, tick },
        ) => VariantView::ConcentratedLiquidity { liquidity, sqrt_price, tick, fee_bp, bands },
        _ => v,
    }
}

/// Applies one decoded log to one pool: only the addressed pool's numeric
/// state changes; identity fields never do.
pub open spec fn spec_apply_if_match(p: PoolView, u: PoolUpdate) -> PoolView {
    if p.address == u.address {
        PoolView { variant: spec_apply_delta(p.variant, u.delta), ..p }
    } else {
        p
    }
}

/// Applies one decoded log across a pool sequence.
pub open spec fn spec_apply_update(pools: Seq<PoolView>, u: PoolUpdate) -> Seq<PoolView> {
    pools.map_values(|p: PoolView| spec_apply_if_match(p, u))
}

/// Applies a batch of decoded logs in order.
pub open spec fn spec_apply_batch(pools: Seq<PoolView>, batch: Seq<PoolUpdate>) -> Seq<PoolView>
    decreases batch.len(),
{
    if batch.len() == 0 {
        pools
    } else {
        spec_apply_batch(spec_apply_update(pools, batch[0]), batch.drop_first())
    }
}

/// The highest processed block after folding a batch over `latest`.
pub open spec fn spec_batch_max_block(latest: u64, batch: Seq<PoolUpdate>) -> u64
    decreases batch.len(),
{
    if batch.len() == 0 {
        latest
    } else {
        let next = if batch[0].block > latest {
            batch[0].block
        } else {
            latest
        };
        spec_batch_max_block(next, batch.drop_first())
    }
}

/// Whether some pool in the sequence has the address.
pub open spec fn spec_contains_addr(pools: Seq<PoolView>, a: Addr) -> bool {
    exists|i: int| 0 <= i < pools.len() && (#[trigger] pools[i]).address == a
}

/// The distinct addresses of the batch entries that touch a tracked pool,
/// in first-touch order, appended to `acc`.
pub open spec fn spec_touched(pools: Seq<PoolView>, batch: Seq<PoolUpdate>, acc: Seq<Addr>) -> Seq<
    Addr,
>
    decreases batch.len(),
{
    if batch.len() == 0 {
        acc
    } else {
        let u = batch[0];
        let acc2 = if spec_contains_addr(pools, u.address) && !acc.contains(u.address) {
            acc.push(u.address)
        } else {
            acc
        };
        spec_touched(pools, batch.drop_first(), acc2)
    }
}

/// Applying the same delta twice leaves the same payload as applying it
/// once: a delta carries absolute state.
pub proof fn lemma_apply_delta_idempotent(v: VariantView, d: StateDelta)
    ensures
        spec_apply_delta(spec_apply_delta(v, d), d) == spec_apply_delta(v, d),
{
}

/// Applying the same decoded log twice yields identical pool state both
/// times: re-application of an already-applied update changes nothing.
pub proof fn lemma_apply_update_idempotent(pools: Seq<PoolView>, u: PoolUpdate)
    ensures
        spec_apply_update(spec_apply_update(pools, u), u) == spec_apply_update(pools, u),
{
    let once = spec_apply_update(pools, u);
    let twice = spec_apply_update(once, u);
    assert forall|i: int| 0 <= i < pools.len() implies twice[i] == once[i] by {
        lemma_apply_delta_idempotent(pools[i].variant, u.delta);
        assert(spec_apply_if_match(spec_apply_if_match(pools[i], u), u) =~= spec_apply_if_match(
            pools[i],
            u,
        ));
    }
    assert(twice =~= once);
}

/// Whether an update would change the addressed pool: it names the pool
/// and carries a delta of the pool's variant kind.
pub open spec fn spec_update_matches(p: PoolView, u: PoolUpdate) -> bool {
    p.address == u.address && match (p.variant, u.delta) {
        (VariantView::ConstantProduct { .. }, StateDelta::Reserves { .. }) => true,
        (VariantView::ConcentratedLiquidity { .. }, StateDelta::PointState { .. }) => true,
        _ => false,
    }
}

/// What a pool keeps through every update: everything but the mutable
/// numeric state.
pub open spec fn spec_same_identity(a: PoolView, b: PoolView) -> bool {
    &&& a.address == b.address
    &&& a.token0 == b.token0
    &&& a.token1 == b.token1
    &&& a.factory == b.factory
    &&& a.creation_block == b.creation_block
    &&& match (a.variant, b.variant) {
        (
            VariantView::ConstantProduct { fee_bp: f1, .. },
            VariantView::ConstantProduct { fee_bp: f2, .. },
        ) => f1 == f2,
        (
            VariantView::ConcentratedLiquidity { fee_bp: f1, bands: b1, .. },
            VariantView::ConcentratedLiquidity { fee_bp: f2, bands: b2, .. },
        ) => f1 == f2 && b1 == b2,
        _ => false,
    }
}

/// One pool's state after a batch: the updates fold over it in order.
pub open spec fn spec_pool_fold(p: PoolView, batch: Seq<PoolUpdate>) -> PoolView
    decreases batch.len(),
{
    if batch.len() == 0 {
        p
    } else {
        spec_pool_fold(spec_apply_if_match(p, batch[0]), batch.drop_first())
    }
}

/// An update never touches a pool's identity.
proof fn lemma_apply_keeps_identity(p: PoolView, u: PoolUpdate)
    ensures
        spec_same_identity(spec_apply_if_match(p, u), p),
{
}

/// Neither does a whole batch.
proof fn lemma_pool_fold_identity(p: PoolView, batch: Seq<PoolUpdate>)
    ensures
        spec_same_identity(spec_pool_fold(p, batch), p),
    decreases batch.len(),
{
    if batch.len() > 0 {
        lemma_apply_keeps_identity(p, batch[0]);
        lemma_pool_fold_identity(spec_apply_if_match(p, batch[0]), batch.drop_first());
    }
}

/// Deltas carry absolute state, so a batch's outcome depends only on a
/// pool's identity: two pools of the same identity end up equal when some
/// update matches, and each stays untouched when none does.
proof fn lemma_pool_fold_determined(p: PoolView, q: PoolView, batch: Seq<PoolUpdate>)
    requires
        spec_same_identity(p, q),
    ensures
        (exists|k: int| 0 <= k < batch.len() && spec_update_matches(p, #[trigger] batch[k]))
            ==> spec_pool_fold(p, batch) == spec_pool_fold(q, batch),
        !(exists|k: int| 0 <= k < batch.len() && spec_update_matches(p, #[trigger] batch[k])) ==> (
        spec_pool_fold(p, batch) == p && spec_pool_fold(q, batch) == q),
    decreases batch.len(),
{
    if batch.len() > 0 {
        let u = batch[0];
        assert(forall|k: int|
            1 <= k < batch.len() ==> (#[trigger] batch[k]) == batch.drop_first()[k - 1]);
        assert(spec_update_matches(p, u) == spec_update_matches(q, u));
        if spec_update_matches(p, u) {
            assert(spec_apply_if_match(p, u) =~~= spec_apply_if_match(q, u));
            lemma_pool_fold_determined(spec_apply_if_match(p, u), spec_apply_if_match(q, u), batch.drop_first());
            lemma_pool_fold_identity(spec_apply_if_match(p, u), batch.drop_first());
            assert(spec_pool_fold(p, batch) == spec_pool_fold(q, batch));
        } else {
            assert(spec_apply_if_match(p, u) == p);
            assert(spec_apply_if_match(q, u) == q);
            lemma_pool_fold_determined(p, q, batch.drop_first());
            if exists|k: int| 0 <= k < batch.len() && spec_update_matches(p, #[trigger] batch[k]) {
                let k = choose|k: int|
                    0 <= k < batch.len() && spec_update_matches(p, #[trigger] batch[k]);
                assert(k != 0);
                assert(spec_update_matches(p, batch.drop_first()[k - 1]));
            }
        }
    }
}

/// Folding a batch over its own outcome changes nothing.
proof fn lemma_pool_fold_idempotent(p: PoolView, batch: Seq<PoolUpdate>)
    ensures
        spec_pool_fold(spec_pool_fold(p, batch), batch) == spec_pool_fold(p, batch),
{
    let p1 = spec_pool_fold(p, batch);
    lemma_pool_fold_identity(p, batch);
    lemma_pool_fold_determined(p1, p, batch);
    assert(forall|k: int|
        0 <= k < batch.len() ==> spec_update_matches(p1, #[trigger] batch[k]) == spec_update_matches(
            p,
            batch[k],
        ));
}

/// A batch acts on each pool independently: position `i` of the applied
/// sequence is the fold of the batch over the pool that stood there.
proof fn lemma_apply_batch_pointwise(pools: Seq<PoolView>, batch: Seq<PoolUpdate>)
    ensures
        spec_apply_batch(pools, batch).len() == pools.len(),
        forall|i: int|
            0 <= i < pools.len() ==> (#[trigger] spec_apply_batch(pools, batch)[i])
                == spec_pool_fold(pools[i], batch),
    decreases batch.len(),
{
    if batch.len() > 0 {
        lemma_apply_batch_pointwise(spec_apply_update(pools, batch[0]), batch.drop_first());
        assert forall|i: int| 0 <= i < pools.len() implies (#[trigger] spec_apply_batch(
            pools,
            batch,
        )[i]) == spec_pool_fold(pools[i], batch) by {
            assert(spec_apply_update(pools, batch[0])[i] == spec_apply_if_match(
                pools[i],
                batch[0],
            ));
        }
    }
}

/// Applying a whole batch twice yields the same pool states as applying
/// it once: re-delivery of an already-applied block is harmless.
pub proof fn lemma_apply_batch_idempotent(pools: Seq<PoolView>, batch: Seq<PoolUpdate>)
    ensures
        spec_apply_batch(spec_apply_batch(pools, batch), batch) == spec_apply_batch(pools, batch),
{
    let once = spec_apply_batch(pools, batch);
    let twice = spec_apply_batch(once, batch);
    lemma_apply_batch_pointwise(pools, batch);
    lemma_apply_batch_pointwise(once, batch);
    assert forall|i: int| 0 <= i < pools.len() implies #[trigger] twice[i] == once[i] by {
        lemma_pool_fold_idempotent(pools[i], batch);
    }
    assert(twice =~= once);
}

/// Folding a batch extended by one update is the fold of the batch followed
/// by that update.
proof fn lemma_apply_batch_snoc(pools: Seq<PoolView>, batch: Seq<PoolUpdate>, u: PoolUpdate)
    ensures
        spec_apply_batch(pools, batch.push(u)) == spec_apply_update(
            spec_apply_batch(pools, batch),
            u,
        ),
    decreases batch.len(),
{
    if batch.len() == 0 {
        assert(batch.push(u)[0] == u);
        assert(batch.push(u).drop_first() =~= batch);
        assert(spec_apply_batch(pools, batch) == pools);
        assert(spec_apply_batch(spec_apply_update(pools, u), batch) == spec_apply_update(pools, u));
    } else {
        assert(batch.push(u)[0] == batch[0]);
        assert(batch.push(u).drop_first() =~= batch.drop_first().push(u));
        lemma_apply_batch_snoc(spec_apply_update(pools, batch[0]), batch.drop_first(), u);
    }
}

/// The same, for the highest-block fold.
proof fn lemma_max_block_snoc(latest: u64, batch: Seq<PoolUpdate>, u: PoolUpdate)
    ensures
        spec_batch_max_block(latest, batch.push(u)) == (if u.block > spec_batch_max_block(
            latest,
            batch,
        ) {
            u.block
        } else {
            spec_batch_max_block(latest, batch)
        }),
    decreases batch.len(),
{
    if batch.len() == 0 {
        assert(batch.push(u)[0] == u);
        assert(batch.push(u).drop_first() =~= batch);
        let next = if u.block > latest {
            u.block
        } else {
            latest
        };
        assert(spec_batch_max_block(latest, batch) == latest);
        assert(spec_batch_max_block(next, batch) == next);
    } else {
        assert(batch.push(u)[0] == batch[0]);
        assert(batch.push(u).drop_first() =~= batch.drop_first().push(u));
        let next = if batch[0].block > latest {
            batch[0].block
        } else {
            latest
        };
        lemma_max_block_snoc(next, batch.drop_first(), u);
    }
}

/// The highest-block fold dominates every block in the batch.
proof fn lemma_max_block_dominates(latest: u64, batch: Seq<PoolUpdate>)
    ensures
        forall|k: int|
            0 <= k < batch.len() ==> spec_batch_max_block(latest, batch) >= (
            #[trigger] batch[k]).block,
    decreases batch.len(),
{
    if batch.len() > 0 {
        let next = if batch[0].block > latest {
            batch[0].block
        } else {
            latest
        };
        lemma_max_block_monotonic(next, batch.drop_first());
        lemma_max_block_dominates(next, batch.drop_first());
        assert forall|k: int|
            0 <= k < batch.len() implies spec_batch_max_block(latest, batch) >= (
        #[trigger] batch[k]).block by {
            if k > 0 {
                assert(batch[k] == batch.drop_first()[k - 1]);
            }
        }
    }
}

/// A starting point that already dominates the batch is the fold.
proof fn lemma_max_block_stable(latest: u64, batch: Seq<PoolUpdate>)
    requires
        forall|k: int| 0 <= k < batch.len() ==> latest >= (#[trigger] batch[k]).block,
    ensures
        spec_batch_max_block(latest, batch) == latest,
    decreases batch.len(),
{
    if batch.len() > 0 {
        assert(forall|k: int|
            0 <= k < batch.drop_first().len() ==> (#[trigger] batch.drop_first()[k]) == batch[k
                + 1]);
        lemma_max_block_stable(latest, batch.drop_first());
    }
}

/// Folding the same batch over its own outcome changes nothing: together
/// with `lemma_apply_batch_idempotent`, re-delivering a block's whole
/// batch leaves the store exactly as one application does.
pub proof fn lemma_max_block_idempotent(latest: u64, batch: Seq<PoolUpdate>)
    ensures
        spec_batch_max_block(spec_batch_max_block(latest, batch), batch) == spec_batch_max_block(
            latest,
            batch,
        ),
{
    lemma_max_block_dominates(latest, batch);
    lemma_max_block_stable(spec_batch_max_block(latest, batch), batch);
}

/// The highest-block fold never goes below its starting point.
pub proof fn lemma_max_block_monotonic(latest: u64, batch: Seq<PoolUpdate>)
    ensures
        spec_batch_max_block(latest, batch) >= latest,
    decreases batch.len(),
{
    if batch.len() > 0 {
        let next = if batch[0].block > latest {
            batch[0].block
        } else {
            latest
        };
        lemma_max_block_monotonic(next, batch.drop_first());
    }
}

/// The same, for the touched-address fold.
proof fn lemma_touched_snoc(
    pools: Seq<PoolView>,
    batch: Seq<PoolUpdate>,
    u: PoolUpdate,
    acc: Seq<Addr>,
)
    ensures
        spec_touched(pools, batch.push(u), acc) == ({
            let t = spec_touched(pools, batch, acc);
            if spec_contains_addr(pools, u.address) && !t.contains(u.address) {
                t.push(u.address)
            } else {
                t
            }
        }),
    decreases batch.len(),
{
    if batch.len() == 0 {
        assert(batch.push(u)[0] == u);
        assert(batch.push(u).drop_first() =~= batch);
        let t = spec_touched(pools, batch, acc);
        assert(t == acc);
        let acc2 = if spec_contains_addr(pools, u.address) && !acc.contains(u.address) {
            acc.push(u.address)
        } else {
            acc
        };
        assert(spec_touched(pools, batch, acc2) == acc2);
    } else {
        assert(batch.push(u)[0] == batch[0]);
        assert(batch.push(u).drop_first() =~= batch.drop_first().push(u));
        let v = batch[0];
        let acc2 = if spec_contains_addr(pools, v.address) && !acc.contains(v.address) {
            acc.push(v.address)
        } else {
            acc
        };
        lemma_touched_snoc(pools, batch.drop_first(), u, acc2);
    }
}

/// A delta changes only the numeric state: the fee, the tick schedule and
/// well-formedness of the payload survive it.
proof fn lemma_apply_delta_wf(v: VariantView, d: StateDelta)
    ensures
        v.wf() ==> spec_apply_delta(v, d).wf(),
        spec_apply_delta(v, d).kind() == v.kind(),
{
}

/// Applying an update keeps the length, every pool's identity fields, and
/// well-formedness.
proof fn lemma_apply_update_addresses(pools: Seq<PoolView>, u: PoolUpdate)
    ensures
        spec_apply_update(pools, u).len() == pools.len(),
        forall|i: int|
            0 <= i < pools.len() ==> (#[trigger] spec_apply_update(pools, u)[i]).address
                == pools[i].address,
        forall|i: int|
            0 <= i < pools.len() && pools[i].wf() ==> (#[trigger] spec_apply_update(
                pools,
                u,
            )[i]).wf(),
{
    assert forall|i: int| 0 <= i < pools.len() && pools[i].wf() implies (
    #[trigger] spec_apply_update(pools, u)[i]).wf() by {
        lemma_apply_delta_wf(pools[i].variant, u.delta);
    }
}

/// Applying a batch keeps the length, every pool's address, and
/// well-formedness.
pub proof fn lemma_apply_batch_addresses(pools: Seq<PoolView>, batch: Seq<PoolUpdate>)
    ensures
        spec_apply_batch(pools, batch).len() == pools.len(),
        forall|i: int|
            0 <= i < pools.len() ==> (#[trigger] spec_apply_batch(pools, batch)[i]).address
                == pools[i].address,
        forall|i: int|
            0 <= i < pools.len() && pools[i].wf() ==> (#[trigger] spec_apply_batch(
                pools,
                batch,
            )[i]).wf(),
    decreases batch.len(),
{
    if batch.len() > 0 {
        lemma_apply_update_addresses(pools, batch[0]);
        lemma_apply_batch_addresses(spec_apply_update(pools, batch[0]), batch.drop_first());
    }
}

/// The models of a sequence of pools, in the same order.
pub open spec fn spec_views(pools: Seq<Pool>) -> Seq<PoolView> {
    pools.map_values(|p: Pool| p@)
}

/// The mathematical model of the store: the pool models in insertion order,
/// and the latest processed block.
#[verifier::ext_equal]
pub struct StoreView {
    pub pools: Seq<PoolView>,
    pub latest_block: u64,
}

impl StoreView {
    /// Well-formedness: addresses are unique and every pool is well formed.
    pub open spec fn wf(self) -> bool {
        &&& forall|i: int, j: int|
            0 <= i < j < self.pools.len() ==> (#[trigger] self.pools[i]).address != (
            #[trigger] self.pools[j]).address
        &&& forall|i: int| 0 <= i < self.pools.len() ==> (#[trigger] self.pools[i]).wf()
    }
}

/// The authoritative pool map: the unit of concurrency control.  Exactly one
/// writer mutates it at a time; readers work on snapshots.
pub struct StateStore {
    pools: Vec<Pool>,
    latest_block: u64,
}

impl View for StateStore {
    type V = StoreView;

    closed spec fn view(&self) -> StoreView {
        StoreView {
            pools: spec_views(self.pools@),
            latest_block: self.latest_block,
        }
    }
}

impl StateStore {
    /// An empty store that considers `initial_block` already processed.
    pub fn new(initial_block: u64) -> (r: StateStore)
        ensures
            r@.pools.len() == 0,
            r@.latest_block == initial_block,
            r@.wf(),
    {
        let r = StateStore { pools: Vec::new(), latest_block: initial_block };
        proof {
            assert(r@.pools =~= Seq::<PoolView>::empty());
        }
        r
    }

    /// The latest block whose updates have been applied.
    pub fn latest_block(&self) -> (r: u64)
        ensures
            r == self@.latest_block,
    {
        self.latest_block
    }

    /// The number of tracked pools.
    pub fn len(&self) -> (r: usize)
        ensures
            r == self@.pools.len(),
    {
        self.pools.len()
    }

    /// The tracked pool at `a`, if any: the queryable side of the mirror.
    pub fn get(&self, a: Addr) -> (r: Option<&Pool>)
        ensures
            match r {
                Option::Some(p) => spec_contains_addr(self@.pools, a) && p@.address == a && exists|
                    i: int,
                |
                    0 <= i < self@.pools.len() && (#[trigger] self@.pools[i]) == p@,
                Option::None => !spec_contains_addr(self@.pools, a),
            },
    {
        match self.find_index(a) {
            Option::Some(i) => {
                let p = &self.pools[i];
                proof {
                    assert(self@.pools[i as int] == p@);
                }
                Some(p)
            },
            Option::None => None,
        }
    }

    /// Replaces the tracked set with `pools` (which must have passed the
    /// filter pipeline, be well formed and be free of duplicate addresses).
    /// The latest processed block is left alone.
    pub fn seed(&mut self, pools: Vec<Pool>)
        requires
            forall|i: int, j: int|
                0 <= i < j < pools@.len() ==> (#[trigger] pools@[i])@.address != (
                #[trigger] pools@[j])@.address,
            forall|i: int| 0 <= i < pools@.len() ==> (#[trigger] pools@[i])@.wf(),
        ensures
            final(self)@.pools == spec_views(pools@),
            final(self)@.latest_block == old(self)@.latest_block,
            final(self)@.wf(),
    {
        self.pools = pools;
    }

    /// A point-in-time snapshot: a structural copy of every tracked pool,
    /// valid for as long as the reader needs it, unaffected by later writes.
    pub fn get_snapshot(&self) -> (r: Vec<Pool>)
        ensures
            spec_views(r@) == self@.pools,
    {
        let mut r: Vec<Pool> = Vec::new();
        let mut i: usize = 0;
        while i < self.pools.len()
            invariant
                i <= self.pools.len(),
                spec_views(r@) =~= spec_views(self.pools@).take(i as int),
            decreases self.pools.len() - i,
        {
            let ghost prev = r@;
            let dup = self.pools[i].duplicate();
            proof {
                assert(dup@ == self.pools@[i as int]@);
            }
            r.push(dup);
            proof {
                assert(r@ == prev.push(dup));
                assert(spec_views(prev).len() == prev.len());
                assert(prev.len() == i as int);
                assert(r@.len() == i as int + 1);
                assert forall|j: int| 0 <= j < r@.len() implies spec_views(r@)[j] == spec_views(
                    self.pools@,
                ).take(i as int + 1)[j] by {
                    if j < i as int {
                        assert(spec_views(prev)[j] == spec_views(self.pools@).take(i as int)[j]);
                    }
                }
                assert(spec_views(r@) =~= spec_views(self.pools@).take(i as int + 1));
            }
            i = i + 1;
        }
        proof {
            assert(spec_views(r@) =~= self@.pools);
        }
        r
    }

    /// The position of the pool with address `a`, if tracked.
    fn find_index(&self, a: Addr) -> (r: Option<usize>)
        ensures
            match r {
                Some(i) => i < self@.pools.len() && self@.pools[i as int].address == a,
                None => !spec_contains_addr(self@.pools, a),
            },
    {
        let mut i: usize = 0;
        while i < self.pools.len()
            invariant
                i <= self.pools.len(),
                forall|j: int| 0 <= j < i ==> (#[trigger] self@.pools[j]).address != a,
            decreases self.pools.len() - i,
        {
            if self.pools[i].address == a {
                return Some(i);
            }
            i = i + 1;
        }
        None
    }

    /// Applies a batch of decoded logs, in order, to the tracked pools:
    /// each matching delta replaces the addressed pool's numeric state, the
    /// latest processed block rises to the highest block in the batch (and
    /// never falls), and the distinct addresses of the pools actually
    /// touched come back in first-touch order.
    pub fn apply_updates(&mut self, batch: &Vec<PoolUpdate>) -> (updated: Vec<Addr>)
        requires
            old(self)@.wf(),
        ensures
            final(self)@.wf(),
            final(self)@.pools == spec_apply_batch(old(self)@.pools, batch@),
            final(self)@.latest_block == spec_batch_max_block(old(self)@.latest_block, batch@),
            final(self)@.latest_block >= old(self)@.latest_block,
            updated@ == spec_touched(old(self)@.pools, batch@, Seq::<Addr>::empty()),
    {
        let ghost pools0 = self@.pools;
        let ghost latest0 = self@.latest_block;
        let mut updated: Vec<Addr> = Vec::new();
        let mut k: usize = 0;
        proof {
            assert(batch@.take(0) =~= Seq::<PoolUpdate>::empty());
        }
        while k < batch.len()
            invariant
                k <= batch.len(),
                forall|a: int, b: int|
                    0 <= a < b < pools0.len() ==> (#[trigger] pools0[a]).address != (
                    #[trigger] pools0[b]).address,
                forall|a: int| 0 <= a < pools0.len() ==> (#[trigger] pools0[a]).wf(),
                self@.pools == spec_apply_batch(pools0, batch@.take(k as int)),
                self@.latest_block == spec_batch_max_block(latest0, batch@.take(k as int)),
                updated@ == spec_touched(pools0, batch@.take(k as int), Seq::<Addr>::empty()),
            decreases batch.len() - k,
        {
            let u = batch[k];
            proof {
                assert(batch@.take(k as int + 1) =~= batch@.take(k as int).push(u));
                lemma_apply_batch_snoc(pools0, batch@.take(k as int), u);
                lemma_max_block_snoc(latest0, batch@.take(k as int), u);
                lemma_touched_snoc(pools0, batch@.take(k as int), u, Seq::<Addr>::empty());
                lemma_apply_batch_addresses(pools0, batch@.take(k as int));
            }
            match self.find_index(u.address) {
                None => {
                    proof {
                        assert forall|j: int| 0 <= j < pools0.len() implies (
                        #[trigger] pools0[j]).address != u.address by {
                            assert(self@.pools[j].address == pools0[j].address);
                        }
                        assert(!spec_contains_addr(pools0, u.address));
                        assert(spec_apply_update(self@.pools, u) =~~= self@.pools);
                    }
                },
                Some(i) => {
                    let ghost before = self@.pools;
                    let nv = apply_delta_variant(&self.pools[i].variant, u.delta);
                    let cur = &self.pools[i];
                    let np = Pool {
                        address: cur.address,
                        token0: cur.token0,
                        token1: cur.token1,
                        variant: nv,
                        factory: cur.factory,
                        creation_block: cur.creation_block,
                    };
                    self.pools[i] = np;
                    proof {
                        assert(pools0[i as int].address == before[i as int].address);
                        assert(spec_contains_addr(pools0, u.address));
                        assert forall|j: int| 0 <= j < before.len() implies #[trigger] self@.pools[j]
                            =~~= spec_apply_update(before, u)[j] by {
                            if j != i as int {
                                assert(pools0[j].address == before[j].address);
                                assert(pools0[j].address != pools0[i as int].address);
                            }
                        }
                        assert(self@.pools =~~= spec_apply_update(before, u));
                    }
                    if !addr_vec_contains(&updated, u.address) {
                        updated.push(u.address);
                    }
                },
            }
            if u.block > self.latest_block {
                self.latest_block = u.block;
            }
            k = k + 1;
        }
        proof {
            assert(batch@.take(batch@.len() as int) =~= batch@);
            lemma_max_block_monotonic(latest0, batch@);
            lemma_apply_batch_addresses(pools0, batch@);
            assert forall|a: int, b: int|
                0 <= a < b < self@.pools.len() implies (#[trigger] self@.pools[a]).address != (
            #[trigger] self@.pools[b]).address by {
                assert(self@.pools[a].address == pools0[a].address);
                assert(self@.pools[b].address == pools0[b].address);
            }
            assert forall|a: int| 0 <= a < self@.pools.len() implies (
            #[trigger] self@.pools[a]).wf() by {
                assert(pools0[a].wf());
            }
        }
        updated
    }
}

/// Applies a delta to a variant payload, as `spec_apply_delta` describes.
fn apply_delta_variant(v: &PoolVariant, d: StateDelta) -> (r: PoolVariant)
    ensures
        r@ == spec_apply_delta(v@, d),
{
    match (v, d) {
        (
            PoolVariant::ConstantProduct { fee_bp, .. },
            StateDelta::Reserves { reserve0, reserve1 },
        ) => PoolVariant::ConstantProduct { reserve0, reserve1, fee_bp: *fee_bp },
        (
            PoolVariant::ConcentratedLiquidity { fee_bp, bands, .. },
            StateDelta::PointState { liquidity, sqrt_price, tick },
        ) => {
            let r = PoolVariant::ConcentratedLiquidity {
                liquidity,
                sqrt_price,
                tick,
                fee_bp: *fee_bp,
                bands: copy_bands(bands),
            };
            proof {
                assert(r@ =~= spec_apply_delta(v@, d));
            }
            r
        },
        _ => v.duplicate(),
    }
}

/// A structural copy of a tick schedule.
pub fn copy_bands(bands: &Vec<crate::types::TickBand>) -> (r: Vec<crate::types::TickBand>)
    ensures
        r@ == bands@,
{
    let mut r: Vec<crate::types::TickBand> = Vec::new();
    let mut i: usize = 0;
    while i < bands.len()
        invariant
            i <= bands.len(),
            r@ =~= bands@.take(i as int),
        decreases bands.len() - i,
    {
        r.push(bands[i]);
        i = i + 1;
    }
    proof {
        assert(r@ =~= bands@);
    }
    r
}

/// Whether `v` holds `a`.
fn addr_vec_contains(v: &Vec<Addr>, a: Addr) -> (r: bool)
    ensures
        r == v@.contains(a),
{
    let mut i: usize = 0;
    while i < v.len()
        invariant
            i <= v.len(),
            forall|j: int| 0 <= j < i ==> v@[j] != a,
        decreases v.len() - i,
    {
        if v[i] == a {
            return true;
        }
        i = i + 1;
    }
    false
}

} // verus!
