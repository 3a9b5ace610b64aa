//! The data model: tokens, pool variants, pools and factory descriptors.
//!
//! Executable values carry their numeric state in vectors and machine
//! integers; every contract in the library speaks of the mathematical views
//! defined here (`VariantView`, `PoolView`).

use vstd::prelude::*;
use crate::addr::Addr;

verus! {

/// A token: a canonical contract address plus its decimal precision.
/// Immutable once observed.
#[derive(PartialEq, Eq, Structural, Clone, Copy, Debug)]
pub struct Token {
    pub address: Addr,
    pub decimals: u8,
}

/// One tick range of a concentrated-liquidity pool: it can absorb up to
/// `max_in` input units, converting them at the rational price
/// `price_num / price_den` (output units per input unit, rounded down).
#[derive(PartialEq, Eq, Structural, Clone, Copy, Debug)]
pub struct TickBand {
    pub max_in: u128,
    pub price_num: u64,
    pub price_den: u64,
}

/// The protocol variant of a pool, carrying the numeric state its pricing
/// formula needs.
#[derive(Debug)]
pub enum PoolVariant {
    /// A two-asset constant-product pool: reserves of each token and the
    /// swap fee in basis points.
    ConstantProduct { reserve0: u128, reserve1: u128, fee_bp: u32 },
    /// A concentrated-liquidity pool: aggregate liquidity, the current
    /// square-root price and tick (refreshed from swap logs), the fee tier
    /// in basis points, and the schedule of tick ranges the pricing walk
    /// consumes.  The schedule is established at discovery or seeding time
    /// from on-chain tick data, which only the transport layer can read:
    /// point-state logs refresh the point fields, and a deployment that
    /// needs quotes to track tick crossings re-reads the tick data and
    /// re-seeds the pool's schedule.
    ConcentratedLiquidity {
        liquidity: u128,
        sqrt_price: u128,
        tick: i32,
        fee_bp: u32,
        bands: Vec<TickBand>,
    },
}

/// The mathematical model of a pool variant.
#[verifier::ext_equal]
pub enum VariantView {
    ConstantProduct { reserve0: u128, reserve1: u128, fee_bp: u32 },
    ConcentratedLiquidity {
        liquidity: u128,
        sqrt_price: u128,
        tick: i32,
        fee_bp: u32,
        bands: Seq<TickBand>,
    },
}

impl View for PoolVariant {
    type V = VariantView;

    open spec fn view(&self) -> VariantView {
        match self {
            PoolVariant::ConstantProduct { reserve0, reserve1, fee_bp } => {
                VariantView::ConstantProduct {
                    reserve0: *reserve0,
                    reserve1: *reserve1,
                    fee_bp: *fee_bp,
                }
            },
            PoolVariant::ConcentratedLiquidity { liquidity, sqrt_price, tick, fee_bp, bands } => {
                VariantView::ConcentratedLiquidity {
                    liquidity: *liquidity,
                    sqrt_price: *sqrt_price,
                    tick: *tick,
                    fee_bp: *fee_bp,
                    bands: bands@,
                }
            },
        }
    }
}

/// The tag of a pool variant, without its numeric payload.
#[derive(PartialEq, Eq, Structural, Clone, Copy, Debug)]
pub enum VariantKind {
    ConstantProduct,
    ConcentratedLiquidity,
}

impl VariantView {
    /// The tag of this variant model.
    pub open spec fn kind(self) -> VariantKind {
        match self {
            VariantView::ConstantProduct { .. } => VariantKind::ConstantProduct,
            VariantView::ConcentratedLiquidity { .. } => VariantKind::ConcentratedLiquidity,
        }
    }

    /// Well-formedness of the numeric payload: the fee never exceeds one
    /// whole unit, and every band's price denominator is non-zero.
    pub open spec fn wf(self) -> bool {
        match self {
            VariantView::ConstantProduct { fee_bp, .. } => fee_bp <= 10_000,
            VariantView::ConcentratedLiquidity { fee_bp, bands, .. } => {
                &&& fee_bp <= 10_000
                &&& forall|i: int| 0 <= i < bands.len() ==> (#[trigger] bands[i]).price_den > 0
            },
        }
    }
}

impl PoolVariant {
    /// Returns the tag of this variant.
    pub fn kind(&self) -> (r: VariantKind)
        ensures
            r == self@.kind(),
    {
        match self {
            PoolVariant::ConstantProduct { .. } => VariantKind::ConstantProduct,
            PoolVariant::ConcentratedLiquidity { .. } => VariantKind::ConcentratedLiquidity,
        }
    }

    /// A copy of this variant with the same model.
    pub fn duplicate(&self) -> (r: PoolVariant)
        ensures
            r@ == self@,
    {
        match self {
            PoolVariant::ConstantProduct { reserve0, reserve1, fee_bp } => {
                PoolVariant::ConstantProduct {
                    reserve0: *reserve0,
                    reserve1: *reserve1,
                    fee_bp: *fee_bp,
                }
            },
            PoolVariant::ConcentratedLiquidity { liquidity, sqrt_price, tick, fee_bp, bands } => {
                let mut copied: Vec<TickBand> = Vec::new();
                let mut i: usize = 0;
                while i < bands.len()
                    invariant
                        i <= bands.len(),
                        copied@ =~= bands@.take(i as int),
                    decreases bands.len() - i,
                {
                    copied.push(bands[i]);
                    i = i + 1;
                }
                proof {
                    assert(copied@ =~= bands@);
                }
                let r = PoolVariant::ConcentratedLiquidity {
                    liquidity: *liquidity,
                    sqrt_price: *sqrt_price,
                    tick: *tick,
                    fee_bp: *fee_bp,
                    bands: copied,
                };
                proof {
                    assert(r@ =~= self@);
                }
                r
            },
        }
    }
}

/// A tracked liquidity pool.  Its identity is its address; its token pair and
/// variant tag never change after creation — only the numeric state mutates.
#[derive(Debug)]
pub struct Pool {
    pub address: Addr,
    pub token0: Token,
    pub token1: Token,
    pub variant: PoolVariant,
    pub factory: Addr,
    pub creation_block: u64,
}

/// The mathematical model of a pool.
#[verifier::ext_equal]
pub struct PoolView {
    pub address: Addr,
    pub token0: Token,
    pub token1: Token,
    pub variant: VariantView,
    pub factory: Addr,
    pub creation_block: u64,
}

impl View for Pool {
    type V = PoolView;

    open spec fn view(&self) -> PoolView {
        PoolView {
            address: self.address,
            token0: self.token0,
            token1: self.token1,
            variant: self.variant@,
            factory: self.factory,
            creation_block: self.creation_block,
        }
    }
}

impl PoolView {
    /// Well-formedness: the token pair is canonically ordered (which also
    /// makes the two tokens distinct) and the variant payload is sound.
    pub open spec fn wf(self) -> bool {
        &&& self.token0.address.spec_lt(self.token1.address)
        &&& self.variant.wf()
    }
}

impl Pool {
    /// A copy of this pool with the same model.
    pub fn duplicate(&self) -> (r: Pool)
        ensures
            r@ == self@,
    {
        let r = Pool {
            address: self.address,
            token0: self.token0,
            token1: self.token1,
            variant: self.variant.duplicate(),
            factory: self.factory,
            creation_block: self.creation_block,
        };
        proof {
            assert(r@ =~= self@);
        }
        r
    }
}

/// A factory descriptor: the contract that deploys pools of one variant,
/// used to bound discovery scans.
#[derive(PartialEq, Eq, Structural, Clone, Copy, Debug)]
pub struct Factory {
    pub address: Addr,
    pub kind: VariantKind,
    pub creation_block: u64,
    pub default_fee_bp: u32,
}

/// A malformed on-chain log or serialized record; the offending item is
/// skipped and processing continues.
#[derive(PartialEq, Eq, Structural, Clone, Copy, Debug)]
pub enum DecodeError {
    /// The payload is shorter than the encoding requires.
    Truncated,
    /// The event signature topic matches no tracked event.
    UnknownTopic,
    /// The token pair is not canonically ordered.
    UnorderedTokens,
    /// A numeric field violates the variant's bounds.
    BadField,
}

/// A swap cannot execute as modeled.
#[derive(PartialEq, Eq, Structural, Clone, Copy, Debug)]
pub enum PricingError {
    /// A reserve is empty, the trade would drain the pool, or the tick
    /// schedule runs out before the input is consumed.
    InsufficientLiquidity,
    /// An intermediate product does not fit the machine integers.
    Overflow,
}

/// An invalid or missing required parameter; fatal at construction time.
#[derive(PartialEq, Eq, Structural, Clone, Copy, Debug)]
pub enum ConfigError {
    /// Fewer than two hops can never close a cycle.
    MaxHopsTooSmall,
    /// A zero probe amount cannot exercise any path.
    ZeroProbeAmount,
    /// No factory to discover pools from.
    NoFactories,
    /// A factory's default fee exceeds one whole unit.
    BadFactoryFee,
}

} // verus!
