//! Gain arithmetic: signed percentage change expressed in basis points, and
//! rendering of basis points as a human-readable percent string.

use vstd::prelude::*;

verus! {

/// Basis points in one whole unit: 10_000 bp = 100%.
pub const BP_SCALE: u128 = 10_000;

/// Absolute difference of two integers.
pub open spec fn spec_abs_diff(a: int, b: int) -> int {
    if a >= b {
        a - b
    } else {
        b - a
    }
}

/// The decimal digit `d` (0..=9) as a character.
pub open spec fn spec_digit_char(d: nat) -> char {
    if d == 0 {
        '0'
    } else if d == 1 {
        '1'
    } else if d == 2 {
        '2'
    } else if d == 3 {
        '3'
    } else if d == 4 {
        '4'
    } else if d == 5 {
        '5'
    } else if d == 6 {
        '6'
    } else if d == 7 {
        '7'
    } else if d == 8 {
        '8'
    } else {
        '9'
    }
}

/// The usual decimal rendering of `n`, with no leading zeros (except for the
/// single digit "0" itself).
pub open spec fn spec_decimal(n: nat) -> Seq<char>
    decreases n,
{
    if n < 10 {
        seq![spec_digit_char(n)]
    } else {
        spec_decimal(n / 10).push(spec_digit_char(n % 10))
    }
}

/// The magnitude of `bp` as a natural number.
pub open spec fn spec_abs_bp(bp: int) -> nat {
    if bp < 0 {
        (-bp) as nat
    } else {
        bp as nat
    }
}

/// `bp` rendered as a percent string: an optional leading minus sign, the
/// whole percent part, a dot, exactly two fractional digits, and a percent
/// sign.  For example 1234 renders as "12.34%" and -50 as "-0.50%".
pub open spec fn spec_percent_string(bp: int) -> Seq<char> {
    let a = spec_abs_bp(bp);
    let sign = if bp < 0 {
        seq!['-']
    } else {
        Seq::<char>::empty()
    };
    sign + spec_decimal(a / 100) + seq!['.'] + seq![
        spec_digit_char((a % 100) / 10),
        spec_digit_char((a % 100) % 10),
    ] + seq!['%']
}

/// Signed percentage change from `old_value` to `new_value`, in basis points,
/// rounded towards zero.  `None` exactly when `old_value` is zero (the change
/// is undefined) or when the exact magnitude
/// `|new_value − old_value| · 10_000 / old_value` exceeds the signed result
/// type — the one genuine machine limit.  Intermediate products never lose a
/// result: the magnitude is computed exactly.
pub open spec fn spec_percentage_change_bp(old_value: nat, new_value: nat) -> Option<i128> {
    if old_value == 0 {
        None
    } else {
        let diff = spec_abs_diff(new_value as int, old_value as int);
        let mag = diff * (BP_SCALE as int) / (old_value as int);
        if mag > i128::MAX {
            None
        } else if new_value >= old_value {
            Some(mag as i128)
        } else {
            Some((-mag) as i128)
        }
    }
}

/// One doubling step of the modular double-and-add chain: from
/// `(q, r)` representing some value `q·d + r` to the representation of
/// twice that value, keeping `r` below `d` without ever forming a product.
fn dbl_step(q: u128, r: u128, d: u128) -> (res: (u128, u128))
    requires
        0 < d,
        r < d,
        q <= 100_000,
    ensures
        res.0 * d + res.1 == 2 * (q * d + r),
        res.1 < d,
        res.0 <= 2 * q + 1,
{
    if r >= d - r {
        let res = (2 * q + 1, r - (d - r));
        proof {
            assert(res.0 * d + res.1 == 2 * (q * d + r)) by (nonlinear_arith)
                requires
                    res.0 == 2 * q + 1,
                    res.1 == r + r - d,
            ;
        }
        res
    } else {
        let res = (2 * q, r + r);
        proof {
            assert(res.0 * d + res.1 == 2 * (q * d + r)) by (nonlinear_arith)
                requires
                    res.0 == 2 * q,
                    res.1 == r + r,
            ;
        }
        res
    }
}

/// One addition step of the chain: adds `a` (below `d`) to the value
/// `q·d + r`, keeping `r` below `d`.
fn add_step(q: u128, r: u128, a: u128, d: u128) -> (res: (u128, u128))
    requires
        0 < d,
        r < d,
        a < d,
        q <= 1_000_000,
    ensures
        res.0 * d + res.1 == q * d + r + a,
        res.1 < d,
        res.0 <= q + 1,
{
    if r >= d - a {
        let res = (q + 1, r - (d - a));
        proof {
            assert(res.0 * d + res.1 == q * d + r + a) by (nonlinear_arith)
                requires
                    res.0 == q + 1,
                    res.1 == r + a - d,
            ;
        }
        res
    } else {
        (q, r + a)
    }
}

/// Computes `⌊r0 · 10_000 / d⌋` exactly for `r0 < d`, even where the
/// product `r0 · 10_000` overflows the machine word: the chain of doubling
/// and addition steps follows the binary digits of 10_000
/// (0b10_0111_0001_0000), carrying only a quotient below 10_000 and a
/// remainder below `d`.
fn muldiv_bp(r0: u128, d: u128) -> (t: u128)
    requires
        0 < d,
        r0 < d,
    ensures
        t == r0 * (BP_SCALE as int) / (d as int),
        t < 10_000,
{
    let s1 = add_step(0, 0, r0, d);
    proof {
        assert(s1.0 * d + s1.1 == r0 * 1);
    }
    let s2 = dbl_step(s1.0, s1.1, d);
    let s3 = dbl_step(s2.0, s2.1, d);
    let s4 = dbl_step(s3.0, s3.1, d);
    let s5 = add_step(s4.0, s4.1, r0, d);
    proof {
        assert(s5.0 * d + s5.1 == r0 * 9);
    }
    let s6 = dbl_step(s5.0, s5.1, d);
    let s7 = add_step(s6.0, s6.1, r0, d);
    proof {
        assert(s7.0 * d + s7.1 == r0 * 19);
    }
    let s8 = dbl_step(s7.0, s7.1, d);
    let s9 = add_step(s8.0, s8.1, r0, d);
    proof {
        assert(s9.0 * d + s9.1 == r0 * 39);
    }
    let s10 = dbl_step(s9.0, s9.1, d);
    let s11 = dbl_step(s10.0, s10.1, d);
    let s12 = dbl_step(s11.0, s11.1, d);
    let s13 = dbl_step(s12.0, s12.1, d);
    let s14 = add_step(s13.0, s13.1, r0, d);
    proof {
        assert(s14.0 * d + s14.1 == r0 * 625);
    }
    let s15 = dbl_step(s14.0, s14.1, d);
    let s16 = dbl_step(s15.0, s15.1, d);
    let s17 = dbl_step(s16.0, s16.1, d);
    let s18 = dbl_step(s17.0, s17.1, d);
    proof {
        assert(s18.0 * d + s18.1 == r0 * 10_000);
        assert(s18.0 < 10_000) by (nonlinear_arith)
            requires
                s18.0 * d + s18.1 == r0 * 10_000,
                0 <= s18.1,
                r0 < d,
                0 < d,
        ;
        vstd::arithmetic::div_mod::lemma_fundamental_div_mod_converse(
            (r0 * 10_000) as int,
            d as int,
            s18.0 as int,
            s18.1 as int,
        );
    }
    s18.0
}

/// Signed percentage change in basis points (1 bp = 0.01%): the sign is
/// positive when `new_value >= old_value`, and the magnitude is
/// `|new_value - old_value| * 10_000 / old_value`, rounded down, computed
/// exactly with a wide intermediate.  Returns `None` only when `old_value`
/// is zero or the magnitude itself does not fit the signed result.
pub fn percentage_change_bp(old_value: u128, new_value: u128) -> (r: Option<i128>)
    ensures
        r == spec_percentage_change_bp(old_value as nat, new_value as nat),
{
    if old_value == 0 {
        return None;
    }
    let negative = new_value < old_value;
    let diff = if negative {
        old_value - new_value
    } else {
        new_value - old_value
    };
    let q0 = diff / old_value;
    let r0 = diff % old_value;
    let t = muldiv_bp(r0, old_value);
    proof {
        vstd::arithmetic::div_mod::lemma_fundamental_div_mod(diff as int, old_value as int);
        vstd::arithmetic::div_mod::lemma_fundamental_div_mod(
            (r0 * 10_000) as int,
            old_value as int,
        );
        assert(diff * 10_000 == (q0 * 10_000 + t) * old_value + (r0 * 10_000 - t * old_value))
            by (nonlinear_arith)
            requires
                diff == old_value * q0 + r0,
        ;
        vstd::arithmetic::div_mod::lemma_fundamental_div_mod_converse(
            (diff * 10_000) as int,
            old_value as int,
            (q0 * 10_000 + t) as int,
            (r0 * 10_000 - t * old_value) as int,
        );
        assert(diff * 10_000 / (old_value as int) == q0 * 10_000 + t);
    }
    let scaled = match q0.checked_mul(BP_SCALE) {
        None => {
            return None;
        },
        Some(x) => x,
    };
    let mag = match scaled.checked_add(t) {
        None => {
            return None;
        },
        Some(m) => m,
    };
    if mag > i128::MAX as u128 {
        return None;
    }
    let m = mag as i128;
    if negative {
        Some(-m)
    } else {
        Some(m)
    }
}

/// A profitable round trip scores a non-negative gain: for
/// `new_value >= old_value > 0`, as long as the exact magnitude fits the
/// signed result, the change is defined and equals
/// `⌊(new_value − old_value) · 10_000 / old_value⌋` basis points — and it
/// is strictly positive as soon as the profit reaches one basis point.
pub proof fn lemma_round_trip_gain(old_value: u128, new_value: u128)
    requires
        0 < old_value,
        old_value <= new_value,
        (new_value - old_value) * (BP_SCALE as int) / (old_value as int) <= i128::MAX,
    ensures
        spec_percentage_change_bp(old_value as nat, new_value as nat) == Some(
            ((new_value - old_value) * (BP_SCALE as int) / (old_value as int)) as i128,
        ),
        (new_value - old_value) * (BP_SCALE as int) >= old_value ==> (new_value - old_value) * (
        BP_SCALE as int) / (old_value as int) >= 1,
{
    let diff = (new_value - old_value) as int;
    let mag = diff * (BP_SCALE as int) / (old_value as int);
    assert(mag >= 0) by (nonlinear_arith)
        requires
            0 <= diff * (BP_SCALE as int),
            0 < old_value,
            mag == diff * (BP_SCALE as int) / (old_value as int),
    ;
    if diff * (BP_SCALE as int) >= old_value {
        assert(mag >= 1) by (nonlinear_arith)
            requires
                diff * (BP_SCALE as int) >= old_value,
                0 < old_value,
                mag == diff * (BP_SCALE as int) / (old_value as int),
        ;
    }
}

/// A one-character string slice holding the decimal digit `d`.
fn digit_str(d: u128) -> (r: &'static str)
    requires
        d < 10,
    ensures
        r@ == seq![spec_digit_char(d as nat)],
{
    proof {
        reveal_strlit("0");
        reveal_strlit("1");
        reveal_strlit("2");
        reveal_strlit("3");
        reveal_strlit("4");
        reveal_strlit("5");
        reveal_strlit("6");
        reveal_strlit("7");
        reveal_strlit("8");
        reveal_strlit("9");
    }
    let r: &'static str = if d == 0 {
        "0"
    } else if d == 1 {
        "1"
    } else if d == 2 {
        "2"
    } else if d == 3 {
        "3"
    } else if d == 4 {
        "4"
    } else if d == 5 {
        "5"
    } else if d == 6 {
        "6"
    } else if d == 7 {
        "7"
    } else if d == 8 {
        "8"
    } else {
        "9"
    };
    proof {
        assert(r@ =~= seq![spec_digit_char(d as nat)]);
    }
    r
}

/// Appends the decimal rendering of `n` to `s`.
fn push_decimal(s: &mut String, n: u128)
    ensures
        final(s)@ == old(s)@ + spec_decimal(n as nat),
    decreases n,
{
    if n >= 10 {
        push_decimal(s, n / 10);
        s.append(digit_str(n % 10));
        proof {
            assert(final(s)@ =~= old(s)@ + spec_decimal(n as nat));
        }
    } else {
        s.append(digit_str(n));
        proof {
            assert(final(s)@ =~= old(s)@ + spec_decimal(n as nat));
        }
    }
}

/// Renders `bp` basis points as a percent string with exactly two fractional
/// digits and a leading `-` for negative values: 1234 gives "12.34%", -50
/// gives "-0.50%".
pub fn format_percent_bp(bp: i128) -> (r: String)
    requires
        bp > i128::MIN,
    ensures
        r@ == spec_percent_string(bp as int),
{
    let mut s = String::new();
    let magnitude: u128 = if bp < 0 {
        s.append("-");
        (-bp) as u128
    } else {
        bp as u128
    };
    push_decimal(&mut s, magnitude / 100);
    s.append(".");
    let frac = magnitude % 100;
    s.append(digit_str(frac / 10));
    s.append(digit_str(frac % 10));
    s.append("%");
    proof {
        reveal_strlit("-");
        reveal_strlit(".");
        reveal_strlit("%");
        assert(s@ =~= spec_percent_string(bp as int));
    }
    s
}

} // verus!
