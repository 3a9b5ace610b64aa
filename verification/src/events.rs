//! Decoding of on-chain event logs into pools and state deltas.
//!
//! A raw log is already reduced to plain values by the transport layer:
//! the emitting contract, an event-signature tag, the log's position in
//! the chain, and the payload bytes.  The payload formats here are the
//! library's own wire format; a malformed log yields a `DecodeError` and
//! is skipped by the callers, never aborting a whole block.

use vstd::prelude::*;
use crate::addr::Addr;
use crate::codec::{addr_at, be_u128, be_u32, spec_addr_at, spec_u128_at, spec_u32_at};
use crate::store::{PoolUpdate, StateDelta};
use crate::types::{DecodeError, Factory, Pool, PoolView, PoolVariant, Token, TickBand, VariantKind, VariantView};

verus! {

/// Event-signature tag of a pool-creation log emitted by a factory.
pub const TOPIC_POOL_CREATED: u64 = 1;

/// Event-signature tag of an absolute-reserves log of a constant-product
/// pool.
pub const TOPIC_RESERVES_SYNC: u64 = 2;

/// Event-signature tag of a point-state log of a concentrated-liquidity
/// pool.
pub const TOPIC_POINT_SWAP: u64 = 3;

/// One fetched log, reduced to plain values.
#[derive(Debug)]
pub struct RawLog {
    /// The emitting contract: the factory for creation logs, the pool for
    /// state-changed logs.
    pub address: Addr,
    /// The event-signature tag.
    pub topic: u64,
    pub block_number: u64,
    pub log_index: u64,
    /// The payload bytes.
    pub data: Vec<u8>,
}

/// The mathematical model of a raw log.
#[verifier::ext_equal]
pub struct RawLogView {
    pub address: Addr,
    pub topic: u64,
    pub block_number: u64,
    pub log_index: u64,
    pub data: Seq<u8>,
}

impl View for RawLog {
    type V = RawLogView;

    open spec fn view(&self) -> RawLogView {
        RawLogView {
            address: self.address,
            topic: self.topic,
            block_number: self.block_number,
            log_index: self.log_index,
            data: self.data@,
        }
    }
}

/// Payload length of a creation log: token0 (20 + 1 bytes), token1
/// (20 + 1), pool address (20), fee in basis points (4).
pub const CREATED_DATA_LEN: usize = 66;

/// Payload length of a reserves log: two 16-byte reserves.
pub const RESERVES_DATA_LEN: usize = 32;

/// Payload length of a point-state log: liquidity (16), square-root price
/// (16), tick sign (1), tick magnitude (4).
pub const POINT_DATA_LEN: usize = 37;

/// The exact decoding of a pool-creation log: the new pool with the
/// factory's variant kind, zeroed numeric state and the log's fee field.
/// Fails with `UnknownTopic` on a foreign tag, `Truncated` on a short or
/// long payload, `UnorderedTokens` when the token pair is not in canonical
/// order, and `BadField` when the fee exceeds one whole unit.
pub open spec fn spec_decode_pool_created(f: Factory, log: RawLogView) -> Result<
    PoolView,
    DecodeError,
> {
    if log.topic != TOPIC_POOL_CREATED {
        Err(DecodeError::UnknownTopic)
    } else if log.data.len() != CREATED_DATA_LEN {
        Err(DecodeError::Truncated)
    } else {
        let t0 = spec_addr_at(log.data, 0);
        let t1 = spec_addr_at(log.data, 21);
        let fee = spec_u32_at(log.data, 62);
        if !t0.spec_lt(t1) {
            Err(DecodeError::UnorderedTokens)
        } else if fee > 10_000 {
            Err(DecodeError::BadField)
        } else {
            Ok(
                PoolView {
                    address: spec_addr_at(log.data, 42),
                    token0: Token { address: t0, decimals: log.data[20] },
                    token1: Token { address: t1, decimals: log.data[41] },
                    variant: spec_zero_variant(f.kind, fee),
                    factory: f.address,
                    creation_block: log.block_number,
                },
            )
        }
    }
}

/// The zeroed numeric state of a fresh pool of the given kind.
pub open spec fn spec_zero_variant(kind: VariantKind, fee_bp: u32) -> VariantView {
    match kind {
        VariantKind::ConstantProduct => VariantView::ConstantProduct {
            reserve0: 0,
            reserve1: 0,
            fee_bp,
        },
        VariantKind::ConcentratedLiquidity => VariantView::ConcentratedLiquidity {
            liquidity: 0,
            sqrt_price: 0,
            tick: 0,
            fee_bp,
            bands: Seq::empty(),
        },
    }
}

/// The view of a decode result.
pub open spec fn spec_pool_result_view(r: Result<Pool, DecodeError>) -> Result<
    PoolView,
    DecodeError,
> {
    match r {
        Result::Ok(p) => Ok(p@),
        Result::Err(e) => Err(e),
    }
}

/// Decodes a pool-creation log emitted by `factory` into a fresh pool
/// with zeroed numeric state, exactly as `spec_decode_pool_created` says.
/// A decoded pool is always well formed.
pub fn decode_pool_created(factory: &Factory, log: &RawLog) -> (r: Result<Pool, DecodeError>)
    ensures
        spec_pool_result_view(r) == spec_decode_pool_created(*factory, log@),
        r is Ok ==> r->Ok_0@.wf(),
{
    if log.topic != TOPIC_POOL_CREATED {
        return Err(DecodeError::UnknownTopic);
    }
    if log.data.len() != CREATED_DATA_LEN {
        return Err(DecodeError::Truncated);
    }
    let t0 = addr_at(&log.data, 0);
    let t1 = addr_at(&log.data, 21);
    let fee = be_u32(&log.data, 62);
    if !t0.lt(&t1) {
        return Err(DecodeError::UnorderedTokens);
    }
    if fee > 10_000 {
        return Err(DecodeError::BadField);
    }
    let variant = match factory.kind {
        VariantKind::ConstantProduct => PoolVariant::ConstantProduct {
            reserve0: 0,
            reserve1: 0,
            fee_bp: fee,
        },
        VariantKind::ConcentratedLiquidity => {
            let bands: Vec<TickBand> = Vec::new();
            proof {
                assert(bands@ =~= Seq::<TickBand>::empty());
            }
            PoolVariant::ConcentratedLiquidity {
                liquidity: 0,
                sqrt_price: 0,
                tick: 0,
                fee_bp: fee,
                bands,
            }
        },
    };
    let p = Pool {
        address: addr_at(&log.data, 42),
        token0: Token { address: t0, decimals: log.data[20] },
        token1: Token { address: t1, decimals: log.data[41] },
        variant,
        factory: factory.address,
        creation_block: log.block_number,
    };
    proof {
        assert(p@ =~= spec_decode_pool_created(*factory, log@)->Ok_0);
    }
    Ok(p)
}

/// The exact decoding of a state-changed log into an absolute delta.
/// A reserves log carries the two reserves; a point-state log carries
/// liquidity, square-root price and a sign-magnitude tick.  Fails with
/// `UnknownTopic` on a foreign tag, `Truncated` on a wrong payload
/// length, and `BadField` on a bad tick sign or a magnitude outside the
/// signed 32-bit range.
pub open spec fn spec_decode_state_log(log: RawLogView) -> Result<PoolUpdate, DecodeError> {
    if log.topic == TOPIC_RESERVES_SYNC {
        if log.data.len() != RESERVES_DATA_LEN {
            Err(DecodeError::Truncated)
        } else {
            Ok(
                PoolUpdate {
                    address: log.address,
                    block: log.block_number,
                    log_index: log.log_index,
                    delta: StateDelta::Reserves {
                        reserve0: spec_u128_at(log.data, 0),
                        reserve1: spec_u128_at(log.data, 16),
                    },
                },
            )
        }
    } else if log.topic == TOPIC_POINT_SWAP {
        if log.data.len() != POINT_DATA_LEN {
            Err(DecodeError::Truncated)
        } else {
            let sign = log.data[32];
            let mag = spec_u32_at(log.data, 33);
            if sign != 0 && sign != 1 {
                Err(DecodeError::BadField)
            } else if sign == 0 && mag > i32::MAX {
                Err(DecodeError::BadField)
            } else if sign == 1 && mag > 0x8000_0000u32 {
                Err(DecodeError::BadField)
            } else {
                Ok(
                    PoolUpdate {
                        address: log.address,
                        block: log.block_number,
                        log_index: log.log_index,
                        delta: StateDelta::PointState {
                            liquidity: spec_u128_at(log.data, 0),
                            sqrt_price: spec_u128_at(log.data, 16),
                            tick: spec_tick(sign, mag),
                        },
                    },
                )
            }
        }
    } else {
        Err(DecodeError::UnknownTopic)
    }
}

/// The tick encoded by a sign byte and a magnitude.
pub open spec fn spec_tick(sign: u8, mag: u32) -> i32 {
    if sign == 0 {
        mag as i32
    } else {
        (-(mag as int)) as i32
    }
}

/// Decodes a state-changed log into an absolute delta for the emitting
/// pool, exactly as `spec_decode_state_log` says.
pub fn decode_state_log(log: &RawLog) -> (r: Result<PoolUpdate, DecodeError>)
    ensures
        r == spec_decode_state_log(log@),
{
    if log.topic == TOPIC_RESERVES_SYNC {
        if log.data.len() != RESERVES_DATA_LEN {
            return Err(DecodeError::Truncated);
        }
        Ok(
            PoolUpdate {
                address: log.address,
                block: log.block_number,
                log_index: log.log_index,
                delta: StateDelta::Reserves {
                    reserve0: be_u128(&log.data, 0),
                    reserve1: be_u128(&log.data, 16),
                },
            },
        )
    } else if log.topic == TOPIC_POINT_SWAP {
        if log.data.len() != POINT_DATA_LEN {
            return Err(DecodeError::Truncated);
        }
        let sign = log.data[32];
        let mag = be_u32(&log.data, 33);
        if sign != 0 && sign != 1 {
            return Err(DecodeError::BadField);
        }
        if sign == 0 && mag > i32::MAX as u32 {
            return Err(DecodeError::BadField);
        }
        if sign == 1 && mag > 0x8000_0000u32 {
            return Err(DecodeError::BadField);
        }
        let tick: i32 = if sign == 0 {
            mag as i32
        } else if mag == 0x8000_0000u32 {
            i32::MIN
        } else {
            -(mag as i32)
        };
        proof {
            assert(tick == spec_tick(sign, mag));
        }
        Ok(
            PoolUpdate {
                address: log.address,
                block: log.block_number,
                log_index: log.log_index,
                delta: StateDelta::PointState {
                    liquidity: be_u128(&log.data, 0),
                    sqrt_price: be_u128(&log.data, 16),
                    tick,
                },
            },
        )
    } else {
        Err(DecodeError::UnknownTopic)
    }
}

} // verus!
