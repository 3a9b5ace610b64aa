//! Per-variant pricing: converts reserves plus an input amount into the
//! output amount a swap would deliver, in exact integer arithmetic.

use vstd::prelude::*;
use crate::types::{PoolVariant, PricingError, TickBand, VariantView};

verus! {

/// The exact outcome of a constant-product quote on machine integers.
///
/// With input reserve `reserve_in`, output reserve `reserve_out` and a fee of
/// `fee_bp` basis points, the output is
/// `reserve_out * a / (reserve_in * 10_000 + a)` where
/// `a = amount_in * (10_000 - fee_bp)`, rounded down.  The quote fails with
/// `InsufficientLiquidity` when either reserve is empty or the output would
/// reach the whole output reserve (draining the pool), and with `Overflow`
/// when an intermediate product exceeds the machine integers.
pub open spec fn spec_cp_quote(
    reserve_in: u128,
    reserve_out: u128,
    fee_bp: u32,
    amount_in: u128,
) -> Result<u128, PricingError> {
    if reserve_in == 0 || reserve_out == 0 {
        Err(PricingError::InsufficientLiquidity)
    } else {
        let a = amount_in * (10_000 - fee_bp);
        let num = reserve_out * a;
        let den = reserve_in * 10_000 + a;
        if a > u128::MAX || num > u128::MAX || den > u128::MAX {
            Err(PricingError::Overflow)
        } else if num / den >= reserve_out {
            Err(PricingError::InsufficientLiquidity)
        } else {
            Ok((num / den) as u128)
        }
    }
}

/// Quotes a constant-product swap: `reserve_in`/`reserve_out` are the
/// reserves of the input and output token, `fee_bp` the fee in basis points,
/// `amount_in` the input amount.  Returns exactly the closed-form integer
/// result described by `spec_cp_quote`.
pub fn quote_constant_product(
    reserve_in: u128,
    reserve_out: u128,
    fee_bp: u32,
    amount_in: u128,
) -> (r: Result<u128, PricingError>)
    requires
        fee_bp <= 10_000,
    ensures
        r == spec_cp_quote(reserve_in, reserve_out, fee_bp, amount_in),
{
    if reserve_in == 0 || reserve_out == 0 {
        return Err(PricingError::InsufficientLiquidity);
    }
    let fee_factor: u128 = (10_000 - fee_bp) as u128;
    let a = match amount_in.checked_mul(fee_factor) {
        None => {
            return Err(PricingError::Overflow);
        },
        Some(a) => a,
    };
    let num = match reserve_out.checked_mul(a) {
        None => {
            return Err(PricingError::Overflow);
        },
        Some(n) => n,
    };
    let den_base = match reserve_in.checked_mul(10_000) {
        None => {
            return Err(PricingError::Overflow);
        },
        Some(d) => d,
    };
    let den = match den_base.checked_add(a) {
        None => {
            return Err(PricingError::Overflow);
        },
        Some(d) => d,
    };
    let out = num / den;
    if out >= reserve_out {
        Err(PricingError::InsufficientLiquidity)
    } else {
        Ok(out)
    }
}

/// The exact outcome of walking a tick schedule.
///
/// Bands are consumed front to back: each band absorbs as much of the
/// remaining input as it can (`max_in`) and converts it at its price
/// `price_num / price_den`, rounded down.  The walk succeeds with the
/// accumulated output once the input is exhausted, fails with
/// `InsufficientLiquidity` when the schedule runs out first, and with
/// `Overflow` when a product or the running output exceeds the machine
/// integers.
pub open spec fn spec_walk(
    bands: Seq<TickBand>,
    remaining: u128,
    acc_out: u128,
) -> Result<u128, PricingError>
    decreases bands.len(),
{
    if remaining == 0 {
        Ok(acc_out)
    } else if bands.len() == 0 {
        Err(PricingError::InsufficientLiquidity)
    } else {
        let band = bands[0];
        let consumed: u128 = if remaining <= band.max_in {
            remaining
        } else {
            band.max_in
        };
        let scaled = consumed * band.price_num;
        if scaled > u128::MAX {
            Err(PricingError::Overflow)
        } else {
            let produced = scaled / (band.price_den as int);
            if acc_out + produced > u128::MAX {
                Err(PricingError::Overflow)
            } else {
                spec_walk(
                    bands.drop_first(),
                    (remaining - consumed) as u128,
                    (acc_out + produced) as u128,
                )
            }
        }
    }
}

/// The exact outcome of a concentrated-liquidity quote: the fee is taken off
/// the input up front (`amount_in * (10_000 - fee_bp) / 10_000`, rounded
/// down), and the rest walks the tick schedule.
pub open spec fn spec_cl_quote(
    fee_bp: u32,
    bands: Seq<TickBand>,
    amount_in: u128,
) -> Result<u128, PricingError> {
    let scaled = amount_in * (10_000 - fee_bp);
    if scaled > u128::MAX {
        Err(PricingError::Overflow)
    } else {
        spec_walk(bands, (scaled / 10_000) as u128, 0)
    }
}

/// Quotes a concentrated-liquidity swap by walking the tick schedule,
/// consuming available liquidity per tick range until the input is exhausted
/// or the schedule runs out.
pub fn quote_concentrated(fee_bp: u32, bands: &Vec<TickBand>, amount_in: u128) -> (r: Result<
    u128,
    PricingError,
>)
    requires
        fee_bp <= 10_000,
        forall|i: int| 0 <= i < bands@.len() ==> (#[trigger] bands@[i]).price_den > 0,
    ensures
        r == spec_cl_quote(fee_bp, bands@, amount_in),
{
    let fee_factor: u128 = (10_000 - fee_bp) as u128;
    let scaled = match amount_in.checked_mul(fee_factor) {
        None => {
            return Err(PricingError::Overflow);
        },
        Some(s) => s,
    };
    let mut remaining = scaled / 10_000;
    let mut out: u128 = 0;
    let mut i: usize = 0;
    proof {
        assert(bands@.skip(0) =~= bands@);
    }
    while i < bands.len() && remaining > 0
        invariant
            i <= bands.len(),
            forall|j: int| 0 <= j < bands@.len() ==> (#[trigger] bands@[j]).price_den > 0,
            spec_cl_quote(fee_bp, bands@, amount_in) == spec_walk(
                bands@.skip(i as int),
                remaining,
                out,
            ),
        decreases bands.len() - i,
    {
        let band = bands[i];
        let consumed = if remaining <= band.max_in {
            remaining
        } else {
            band.max_in
        };
        proof {
            assert(bands@.skip(i as int)[0] == bands@[i as int]);
            assert(bands@.skip(i as int).drop_first() =~= bands@.skip(i as int + 1));
        }
        let scaled_out = match consumed.checked_mul(band.price_num as u128) {
            None => {
                return Err(PricingError::Overflow);
            },
            Some(s) => s,
        };
        let produced = scaled_out / (band.price_den as u128);
        out = match out.checked_add(produced) {
            None => {
                return Err(PricingError::Overflow);
            },
            Some(o) => o,
        };
        remaining = remaining - consumed;
        i = i + 1;
    }
    if remaining > 0 {
        proof {
            assert(bands@.skip(i as int).len() == 0);
        }
        Err(PricingError::InsufficientLiquidity)
    } else {
        Ok(out)
    }
}

/// The exact outcome of quoting one swap against a pool variant in the given
/// direction (`zero_for_one` true means token0 in, token1 out).
pub open spec fn spec_quote(v: VariantView, zero_for_one: bool, amount_in: u128) -> Result<
    u128,
    PricingError,
> {
    match v {
        VariantView::ConstantProduct { reserve0, reserve1, fee_bp } => {
            if zero_for_one {
                spec_cp_quote(reserve0, reserve1, fee_bp, amount_in)
            } else {
                spec_cp_quote(reserve1, reserve0, fee_bp, amount_in)
            }
        },
        VariantView::ConcentratedLiquidity { fee_bp, bands, .. } => {
            spec_cl_quote(fee_bp, bands, amount_in)
        },
    }
}

/// Quotes one swap against a pool variant: dispatches to the formula of the
/// variant's protocol.  Adding a new protocol variant means adding one tag
/// and one formula; this is the single dispatch point.
pub fn quote(v: &PoolVariant, zero_for_one: bool, amount_in: u128) -> (r: Result<
    u128,
    PricingError,
>)
    requires
        v@.wf(),
    ensures
        r == spec_quote(v@, zero_for_one, amount_in),
{
    match v {
        PoolVariant::ConstantProduct { reserve0, reserve1, fee_bp } => {
            if zero_for_one {
                quote_constant_product(*reserve0, *reserve1, *fee_bp, amount_in)
            } else {
                quote_constant_product(*reserve1, *reserve0, *fee_bp, amount_in)
            }
        },
        PoolVariant::ConcentratedLiquidity { fee_bp, bands, .. } => {
            quote_concentrated(*fee_bp, bands, amount_in)
        },
    }
}

} // verus!
