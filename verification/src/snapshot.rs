//! Snapshot records: the flat, serializable form of the tracked state.
//!
//! A snapshot is a list of per-pool records plus the latest processed
//! block.  The records hold plain values only; writing them to disk and
//! reading them back is the persistence layer's business outside the
//! library.  A malformed record is skipped on load, and a well-formed
//! pool survives the round trip unchanged.

use vstd::prelude::*;
use crate::addr::Addr;
use crate::store::{spec_contains_addr, spec_views, StateStore};
use crate::types::{DecodeError, Pool, PoolView, PoolVariant, TickBand, Token, VariantKind, VariantView};

verus! {

/// One serialized pool: every variant flattened into one row.  The fields
/// of the other variant are zero, and `bands` is empty for a
/// constant-product pool.
#[derive(Debug)]
pub struct PoolRecord {
    pub address: Addr,
    pub token0: Token,
    pub token1: Token,
    pub kind: VariantKind,
    pub reserve0: u128,
    pub reserve1: u128,
    pub liquidity: u128,
    pub sqrt_price: u128,
    pub tick: i32,
    pub fee_bp: u32,
    pub bands: Vec<TickBand>,
    pub factory: Addr,
    pub creation_block: u64,
}

/// The mathematical model of a record.
#[verifier::ext_equal]
pub struct RecordView {
    pub address: Addr,
    pub token0: Token,
    pub token1: Token,
    pub kind: VariantKind,
    pub reserve0: u128,
    pub reserve1: u128,
    pub liquidity: u128,
    pub sqrt_price: u128,
    pub tick: i32,
    pub fee_bp: u32,
    pub bands: Seq<TickBand>,
    pub factory: Addr,
    pub creation_block: u64,
}

impl View for PoolRecord {
    type V = RecordView;

    open spec fn view(&self) -> RecordView {
        RecordView {
            address: self.address,
            token0: self.token0,
            token1: self.token1,
            kind: self.kind,
            reserve0: self.reserve0,
            reserve1: self.reserve1,
            liquidity: self.liquidity,
            sqrt_price: self.sqrt_price,
            tick: self.tick,
            fee_bp: self.fee_bp,
            bands: self.bands@,
            factory: self.factory,
            creation_block: self.creation_block,
        }
    }
}

/// The record of a pool.
pub open spec fn spec_to_record(p: PoolView) -> RecordView {
    match p.variant {
        VariantView::ConstantProduct { reserve0, reserve1, fee_bp } => RecordView {
            address: p.address,
            token0: p.token0,
            token1: p.token1,
            kind: VariantKind::ConstantProduct,
            reserve0,
            reserve1,
            liquidity: 0,
            sqrt_price: 0,
            tick: 0,
            fee_bp,
            bands: Seq::empty(),
            factory: p.factory,
            creation_block: p.creation_block,
        },
        VariantView::ConcentratedLiquidity { liquidity, sqrt_price, tick, fee_bp, bands } => RecordView {
            address: p.address,
            token0: p.token0,
            token1: p.token1,
            kind: VariantKind::ConcentratedLiquidity,
            reserve0: 0,
            reserve1: 0,
            liquidity,
            sqrt_price,
            tick,
            fee_bp,
            bands,
            factory: p.factory,
            creation_block: p.creation_block,
        },
    }
}

/// The pool a record describes.  Fails with `UnorderedTokens` when the
/// token pair is not canonical, `BadField` when the fee exceeds one whole
/// unit or a band has a zero price denominator; fields of the other
/// variant are ignored.
pub open spec fn spec_from_record(r: RecordView) -> Result<PoolView, DecodeError> {
    if !r.token0.address.spec_lt(r.token1.address) {
        Err(DecodeError::UnorderedTokens)
    } else if r.fee_bp > 10_000 {
        Err(DecodeError::BadField)
    } else if r.kind == VariantKind::ConcentratedLiquidity && exists|i: int|
        0 <= i < r.bands.len() && (#[trigger] r.bands[i]).price_den == 0 {
        Err(DecodeError::BadField)
    } else {
        Ok(
            PoolView {
                address: r.address,
                token0: r.token0,
                token1: r.token1,
                variant: if r.kind == VariantKind::ConstantProduct {
                    VariantView::ConstantProduct {
                        reserve0: r.reserve0,
                        reserve1: r.reserve1,
                        fee_bp: r.fee_bp,
                    }
                } else {
                    VariantView::ConcentratedLiquidity {
                        liquidity: r.liquidity,
                        sqrt_price: r.sqrt_price,
                        tick: r.tick,
                        fee_bp: r.fee_bp,
                        bands: r.bands,
                    }
                },
                factory: r.factory,
                creation_block: r.creation_block,
            },
        )
    }
}

/// A well-formed pool survives the record round trip unchanged.
pub proof fn lemma_record_round_trip(p: PoolView)
    requires
        p.wf(),
    ensures
        spec_from_record(spec_to_record(p)) == Ok::<PoolView, DecodeError>(p),
{
    match p.variant {
        VariantView::ConstantProduct { .. } => {
            assert(spec_from_record(spec_to_record(p))->Ok_0 =~= p);
        },
        VariantView::ConcentratedLiquidity { .. } => {
            assert(spec_from_record(spec_to_record(p))->Ok_0 =~= p);
        },
    }
}

/// Serializes one pool, exactly as `spec_to_record` says.
pub fn to_record(p: &Pool) -> (r: PoolRecord)
    ensures
        r@ == spec_to_record(p@),
{
    match &p.variant {
        PoolVariant::ConstantProduct { reserve0, reserve1, fee_bp } => {
            let bands: Vec<TickBand> = Vec::new();
            let r = PoolRecord {
                address: p.address,
                token0: p.token0,
                token1: p.token1,
                kind: VariantKind::ConstantProduct,
                reserve0: *reserve0,
                reserve1: *reserve1,
                liquidity: 0,
                sqrt_price: 0,
                tick: 0,
                fee_bp: *fee_bp,
                bands,
                factory: p.factory,
                creation_block: p.creation_block,
            };
            proof {
                assert(r@ =~= spec_to_record(p@));
            }
            r
        },
        PoolVariant::ConcentratedLiquidity { liquidity, sqrt_price, tick, fee_bp, bands } => {
            let r = PoolRecord {
                address: p.address,
                token0: p.token0,
                token1: p.token1,
                kind: VariantKind::ConcentratedLiquidity,
                reserve0: 0,
                reserve1: 0,
                liquidity: *liquidity,
                sqrt_price: *sqrt_price,
                tick: *tick,
                fee_bp: *fee_bp,
                bands: crate::store::copy_bands(bands),
                factory: p.factory,
                creation_block: p.creation_block,
            };
            proof {
                assert(r@ =~= spec_to_record(p@));
            }
            r
        },
    }
}

/// Rebuilds one pool from its record, exactly as `spec_from_record` says.
/// A rebuilt pool is always well formed.
pub fn from_record(rec: &PoolRecord) -> (r: Result<Pool, DecodeError>)
    ensures
        match r {
            Result::Ok(p) => spec_from_record(rec@) == Ok::<PoolView, DecodeError>(p@) && p@.wf(),
            Result::Err(e) => spec_from_record(rec@) == Err::<PoolView, DecodeError>(e),
        },
{
    if !rec.token0.address.lt(&rec.token1.address) {
        return Err(DecodeError::UnorderedTokens);
    }
    if rec.fee_bp > 10_000 {
        return Err(DecodeError::BadField);
    }
    let variant = match rec.kind {
        VariantKind::ConstantProduct => PoolVariant::ConstantProduct {
            reserve0: rec.reserve0,
            reserve1: rec.reserve1,
            fee_bp: rec.fee_bp,
        },
        VariantKind::ConcentratedLiquidity => {
            let mut i: usize = 0;
            while i < rec.bands.len()
                invariant
                    i <= rec.bands.len(),
                    rec@.token0.address.spec_lt(rec@.token1.address),
                    rec@.fee_bp <= 10_000,
                    rec@.kind == VariantKind::ConcentratedLiquidity,
                    forall|j: int| 0 <= j < i ==> (#[trigger] rec.bands@[j]).price_den != 0,
                decreases rec.bands.len() - i,
            {
                if rec.bands[i].price_den == 0 {
                    proof {
                        assert(rec@.bands[i as int].price_den == 0);
                    }
                    return Err(DecodeError::BadField);
                }
                i = i + 1;
            }
            PoolVariant::ConcentratedLiquidity {
                liquidity: rec.liquidity,
                sqrt_price: rec.sqrt_price,
                tick: rec.tick,
                fee_bp: rec.fee_bp,
                bands: crate::store::copy_bands(&rec.bands),
            }
        },
    };
    let p = Pool {
        address: rec.address,
        token0: rec.token0,
        token1: rec.token1,
        variant,
        factory: rec.factory,
        creation_block: rec.creation_block,
    };
    proof {
        assert(p@ =~= spec_from_record(rec@)->Ok_0);
    }
    Ok(p)
}

/// The records of a pool sequence.
pub open spec fn spec_record_views(pools: Seq<PoolView>) -> Seq<RecordView> {
    pools.map_values(|p: PoolView| spec_to_record(p))
}

/// The pools rebuilt from a record sequence, appended to `acc`: a
/// malformed record or a duplicate address is skipped.
pub open spec fn spec_load_fold(records: Seq<RecordView>, acc: Seq<PoolView>) -> Seq<PoolView>
    decreases records.len(),
{
    if records.len() == 0 {
        acc
    } else {
        let acc2 = match spec_from_record(records[0]) {
            Result::Err(_) => acc,
            Result::Ok(p) => if spec_contains_addr(acc, p.address) {
                acc
            } else {
                acc.push(p)
            },
        };
        spec_load_fold(records.drop_first(), acc2)
    }
}

/// Folding one more record appends its pool exactly when it decodes and
/// is new.
proof fn lemma_load_fold_snoc(records: Seq<RecordView>, rec: RecordView, acc: Seq<PoolView>)
    ensures
        spec_load_fold(records.push(rec), acc) == ({
            let r = spec_load_fold(records, acc);
            match spec_from_record(rec) {
                Result::Err(_) => r,
                Result::Ok(p) => if spec_contains_addr(r, p.address) {
                    r
                } else {
                    r.push(p)
                },
            }
        }),
    decreases records.len(),
{
    if records.len() == 0 {
        assert(records.push(rec)[0] == rec);
        assert(records.push(rec).drop_first() =~= records);
        let acc2 = match spec_from_record(rec) {
            Result::Err(_) => acc,
            Result::Ok(p) => if spec_contains_addr(acc, p.address) {
                acc
            } else {
                acc.push(p)
            },
        };
        assert(spec_load_fold(records, acc) == acc);
        assert(spec_load_fold(records, acc2) == acc2);
    } else {
        assert(records.push(rec)[0] == records[0]);
        assert(records.push(rec).drop_first() =~= records.drop_first().push(rec));
        let acc2 = match spec_from_record(records[0]) {
            Result::Err(_) => acc,
            Result::Ok(p) => if spec_contains_addr(acc, p.address) {
                acc
            } else {
                acc.push(p)
            },
        };
        lemma_load_fold_snoc(records.drop_first(), rec, acc2);
    }
}

/// Loading a suffix of a well-formed pool set's records over the matching
/// prefix rebuilds the whole set.
proof fn lemma_load_fold_prefix(pools: Seq<PoolView>, i: int)
    requires
        0 <= i <= pools.len(),
        forall|a: int, b: int|
            0 <= a < b < pools.len() ==> (#[trigger] pools[a]).address != (
            #[trigger] pools[b]).address,
        forall|a: int| 0 <= a < pools.len() ==> (#[trigger] pools[a]).wf(),
    ensures
        spec_load_fold(spec_record_views(pools).skip(i), pools.take(i)) == pools,
    decreases pools.len() - i,
{
    let records = spec_record_views(pools);
    if i == pools.len() {
        assert(records.skip(i).len() == 0);
        assert(pools.take(i) =~= pools);
    } else {
        assert(records.skip(i)[0] == spec_to_record(pools[i]));
        lemma_record_round_trip(pools[i]);
        assert forall|j: int| 0 <= j < i implies (#[trigger] pools.take(i)[j]).address
            != pools[i].address by {
            assert(pools.take(i)[j] == pools[j]);
        }
        assert(!spec_contains_addr(pools.take(i), pools[i].address));
        assert(pools.take(i).push(pools[i]) =~= pools.take(i + 1));
        assert(records.skip(i).drop_first() =~= records.skip(i + 1));
        lemma_load_fold_prefix(pools, i + 1);
    }
}

/// A snapshot round trip preserves the tracked state: loading the records
/// of a well-formed, duplicate-free pool set rebuilds it exactly.
pub proof fn lemma_snapshot_round_trip(pools: Seq<PoolView>)
    requires
        forall|a: int, b: int|
            0 <= a < b < pools.len() ==> (#[trigger] pools[a]).address != (
            #[trigger] pools[b]).address,
        forall|a: int| 0 <= a < pools.len() ==> (#[trigger] pools[a]).wf(),
    ensures
        spec_load_fold(spec_record_views(pools), Seq::<PoolView>::empty()) == pools,
{
    assert(pools.take(0) =~= Seq::<PoolView>::empty());
    assert(spec_record_views(pools).skip(0) =~= spec_record_views(pools));
    lemma_load_fold_prefix(pools, 0);
}

/// Serializes a snapshot: one record per tracked pool, in store order,
/// plus the latest processed block.
pub fn serialize(store: &StateStore) -> (r: (Vec<PoolRecord>, u64))
    ensures
        spec_record_views(store@.pools) == r.0@.map_values(|rec: PoolRecord| rec@),
        r.1 == store@.latest_block,
{
    let pools = store.get_snapshot();
    let mut records: Vec<PoolRecord> = Vec::new();
    let mut i: usize = 0;
    while i < pools.len()
        invariant
            i <= pools.len(),
            records@.map_values(|rec: PoolRecord| rec@) =~= spec_record_views(
                spec_views(pools@),
            ).take(i as int),
        decreases pools.len() - i,
    {
        let ghost prev = records@;
        records.push(to_record(&pools[i]));
        proof {
            assert(records@.map_values(|rec: PoolRecord| rec@) =~= prev.map_values(
                |rec: PoolRecord| rec@,
            ).push(spec_to_record(pools@[i as int]@)));
            assert(records@.map_values(|rec: PoolRecord| rec@) =~= spec_record_views(
                spec_views(pools@),
            ).take(i as int + 1));
        }
        i = i + 1;
    }
    proof {
        assert(spec_record_views(spec_views(pools@)).take(pools@.len() as int) =~= spec_record_views(
            spec_views(pools@),
        ));
    }
    (records, store.latest_block())
}

/// Rebuilds a store from a serialized snapshot.  Malformed records and
/// duplicate addresses are skipped; the rebuilt store is well formed and
/// its latest processed block is the stored one.
pub fn deserialize(records: &Vec<PoolRecord>, latest_block: u64) -> (r: StateStore)
    ensures
        r@.pools == spec_load_fold(
            records@.map_values(|rec: PoolRecord| rec@),
            Seq::<PoolView>::empty(),
        ),
        r@.latest_block == latest_block,
        r@.wf(),
{
    let ghost rv = records@.map_values(|rec: PoolRecord| rec@);
    let mut pools: Vec<Pool> = Vec::new();
    let mut i: usize = 0;
    proof {
        assert(rv.take(0) =~= Seq::<RecordView>::empty());
        assert(spec_views(pools@) =~= Seq::<PoolView>::empty());
    }
    while i < records.len()
        invariant
            i <= records.len(),
            rv == records@.map_values(|rec: PoolRecord| rec@),
            spec_views(pools@) == spec_load_fold(rv.take(i as int), Seq::<PoolView>::empty()),
            forall|a: int, b: int|
                0 <= a < b < pools@.len() ==> (#[trigger] spec_views(pools@)[a]).address != (
                #[trigger] spec_views(pools@)[b]).address,
            forall|a: int| 0 <= a < pools@.len() ==> (#[trigger] spec_views(pools@)[a]).wf(),
        decreases records.len() - i,
    {
        proof {
            assert(rv.take(i as int + 1) =~= rv.take(i as int).push(rv[i as int]));
            lemma_load_fold_snoc(rv.take(i as int), rv[i as int], Seq::<PoolView>::empty());
        }
        match from_record(&records[i]) {
            Result::Err(_) => {},
            Result::Ok(p) => {
                if !pools_contain_addr(&pools, p.address) {
                    let ghost prev = pools@;
                    pools.push(p);
                    proof {
                        assert(spec_views(pools@) =~= spec_views(prev).push(p@));
                    }
                }
            },
        }
        i = i + 1;
    }
    proof {
        assert(rv.take(records@.len() as int) =~= rv);
    }
    let mut store = StateStore::new(latest_block);
    proof {
        assert forall|a: int, b: int|
            0 <= a < b < pools@.len() implies (#[trigger] pools@[a])@.address != (
        #[trigger] pools@[b])@.address by {
            assert(spec_views(pools@)[a] == pools@[a]@);
            assert(spec_views(pools@)[b] == pools@[b]@);
        }
        assert forall|a: int| 0 <= a < pools@.len() implies (#[trigger] pools@[a])@.wf() by {
            assert(spec_views(pools@)[a] == pools@[a]@);
        }
    }
    store.seed(pools);
    store
}

/// Whether some pool in the list has the address.
fn pools_contain_addr(pools: &Vec<Pool>, a: Addr) -> (r: bool)
    ensures
        r == spec_contains_addr(spec_views(pools@), a),
{
    let mut i: usize = 0;
    while i < pools.len()
        invariant
            i <= pools.len(),
            forall|j: int| 0 <= j < i ==> (#[trigger] spec_views(pools@)[j]).address != a,
        decreases pools.len() - i,
    {
        if pools[i].address == a {
            proof {
                assert(spec_views(pools@)[i as int].address == a);
            }
            return true;
        }
        i = i + 1;
    }
    false
}

} // verus!
