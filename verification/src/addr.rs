//! Canonical 160-bit account identifiers.
//!
//! An on-chain address is a fixed-width 160-bit value; it is carried here as
//! a high 32-bit word and a low 128-bit word so that all reasoning stays on
//! plain machine integers.  Addresses written as 0x-prefixed hex strings
//! (the form configuration files and block explorers use) are parsed by
//! `parse_hex_addr`.

use vstd::prelude::*;

verus! {

/// The value of one hex digit given as a unicode scalar, or -1 when the
/// scalar is no hex digit.
pub open spec fn spec_scalar_hex(x: int) -> int {
    if 48 <= x <= 57 {
        x - 48
    } else if 97 <= x <= 102 {
        x - 87
    } else if 65 <= x <= 70 {
        x - 55
    } else {
        -1
    }
}

/// The value of one hex digit character, or -1.
pub open spec fn spec_hex_digit_val(c: char) -> int {
    spec_scalar_hex(c as int)
}

/// Whether every character of `s` is a hex digit.
pub open spec fn spec_is_hex(s: Seq<char>) -> bool {
    forall|i: int| 0 <= i < s.len() ==> spec_hex_digit_val(#[trigger] s[i]) >= 0
}

/// The value of a hex digit string, most significant digit first.
pub open spec fn spec_hex_value(s: Seq<char>) -> int
    decreases s.len(),
{
    if s.len() == 0 {
        0
    } else {
        spec_hex_value(s.drop_last()) * 16 + spec_hex_digit_val(s.last())
    }
}

/// Sixteen to the `n`.
pub open spec fn spec_pow16(n: nat) -> int
    decreases n,
{
    if n == 0 {
        1
    } else {
        16 * spec_pow16((n - 1) as nat)
    }
}

/// Powers of sixteen grow with the exponent.
proof fn lemma_pow16_increases(a: nat, b: nat)
    requires
        a <= b,
    ensures
        spec_pow16(a) <= spec_pow16(b),
        spec_pow16(a) >= 1,
    decreases b,
{
    if b > 0 {
        if a == b {
            lemma_pow16_increases((a - 1) as nat, (b - 1) as nat);
        } else {
            lemma_pow16_increases(a, (b - 1) as nat);
        }
    }
}

/// The value of an `n`-digit hex string lies below sixteen to the `n`.
proof fn lemma_hex_value_bound(s: Seq<char>)
    requires
        spec_is_hex(s),
    ensures
        0 <= spec_hex_value(s) < spec_pow16(s.len()),
    decreases s.len(),
{
    if s.len() > 0 {
        assert(spec_is_hex(s.drop_last())) by {
            assert(forall|i: int| 0 <= i < s.len() - 1 ==> s.drop_last()[i] == s[i]);
        }
        lemma_hex_value_bound(s.drop_last());
        assert(spec_hex_digit_val(s.last()) >= 0);
        assert(spec_hex_digit_val(s.last()) <= 15);
    }
}

/// Decodes one hex digit from its byte, exactly as `spec_scalar_hex` says.
fn hex_digit(b: u8) -> (v: Option<u8>)
    ensures
        match v {
            Option::Some(d) => spec_scalar_hex(b as int) == d as int && d < 16,
            Option::None => spec_scalar_hex(b as int) == -1,
        },
{
    if 48 <= b && b <= 57 {
        Some(b - 48)
    } else if 97 <= b && b <= 102 {
        Some(b - 87)
    } else if 65 <= b && b <= 70 {
        Some(b - 55)
    } else {
        None
    }
}

/// Parses a 0x-prefixed, 40-digit hex string into an address: eight high
/// digits, then thirty-two low digits, upper or lower case.  Returns
/// `None` exactly when the string is not of that shape.
pub fn parse_hex_addr(s: &str) -> (r: Option<Addr>)
    ensures
        match r {
            Option::Some(a) => {
                &&& s@.len() == 42
                &&& s@[0] == '0'
                &&& s@[1] == 'x'
                &&& spec_is_hex(s@.skip(2))
                &&& a.hi as int == spec_hex_value(s@.subrange(2, 10))
                &&& a.lo as int == spec_hex_value(s@.subrange(10, 42))
            },
            Option::None => !(s@.len() == 42 && s@[0] == '0' && s@[1] == 'x' && spec_is_hex(
                s@.skip(2),
            )),
        },
{
    if !s.is_ascii() {
        proof {
            if s@.len() == 42 && s@[0] == '0' && s@[1] == 'x' && spec_is_hex(s@.skip(2)) {
                assert forall|i: int| 0 <= i < s@.len() implies '\0' <= #[trigger] s@[i]
                    <= '\u{7f}' by {
                    if i >= 2 {
                        assert(s@.skip(2)[i - 2] == s@[i]);
                        assert(spec_hex_digit_val(s@[i]) >= 0);
                    }
                }
                assert(vstd::string::is_ascii(s));
            }
        }
        return None;
    }
    proof {
        vstd::string::is_ascii_spec_bytes(s);
    }
    let bytes = s.as_bytes();
    let ghost cs = s@;
    proof {
        assert(bytes@ =~= Seq::new(cs.len(), |i: int| cs[i] as u8));
        assert(forall|j: int| 0 <= j < cs.len() ==> '\0' <= #[trigger] cs[j] <= '\u{7f}');
    }
    if bytes.len() != 42 {
        return None;
    }
    if bytes[0] != 48 || bytes[1] != 120 {
        return None;
    }
    let mut hi_acc: u64 = 0;
    let mut i: usize = 2;
    while i < 10
        invariant
            2 <= i <= 10,
            cs == s@,
            cs.len() == 42,
            bytes@.len() == 42,
            forall|j: int| 0 <= j < 42 ==> #[trigger] bytes@[j] == cs[j] as u8,
            forall|j: int| 0 <= j < cs.len() ==> '\0' <= #[trigger] cs[j] <= '\u{7f}',
            spec_is_hex(cs.subrange(2, i as int)),
            hi_acc as int == spec_hex_value(cs.subrange(2, i as int)),
        decreases 10 - i,
    {
        let d = match hex_digit(bytes[i]) {
            Option::None => {
                proof {
                    assert(cs.skip(2)[i - 2] == cs[i as int]);
                    assert(spec_hex_digit_val(cs[i as int]) == -1);
                    assert(!spec_is_hex(cs.skip(2)));
                }
                return None;
            },
            Option::Some(d) => d,
        };
        proof {
            assert(spec_hex_digit_val(cs[i as int]) == d as int);
            assert(cs.subrange(2, i as int + 1).drop_last() =~= cs.subrange(2, i as int));
            assert(cs.subrange(2, i as int + 1).last() == cs[i as int]);
            assert(spec_is_hex(cs.subrange(2, i as int + 1))) by {
                assert(forall|j: int|
                    0 <= j < i - 2 ==> cs.subrange(2, i as int + 1)[j] == cs.subrange(
                        2,
                        i as int,
                    )[j]);
            }
            lemma_hex_value_bound(cs.subrange(2, i as int));
            lemma_pow16_increases(cs.subrange(2, i as int).len() as nat, 7);
            assert(spec_pow16(7) == 0x1000_0000) by {
                reveal_with_fuel(spec_pow16, 8);
            }
        }
        hi_acc = hi_acc * 16 + (d as u64);
        i = i + 1;
    }
    let mut lo_acc: u128 = 0;
    let mut k: usize = 10;
    while k < 42
        invariant
            10 <= k <= 42,
            cs == s@,
            cs.len() == 42,
            bytes@.len() == 42,
            forall|j: int| 0 <= j < 42 ==> #[trigger] bytes@[j] == cs[j] as u8,
            forall|j: int| 0 <= j < cs.len() ==> '\0' <= #[trigger] cs[j] <= '\u{7f}',
            spec_is_hex(cs.subrange(10, k as int)),
            lo_acc as int == spec_hex_value(cs.subrange(10, k as int)),
        decreases 42 - k,
    {
        let d = match hex_digit(bytes[k]) {
            Option::None => {
                proof {
                    assert(cs.skip(2)[k - 2] == cs[k as int]);
                    assert(spec_hex_digit_val(cs[k as int]) == -1);
                    assert(!spec_is_hex(cs.skip(2)));
                }
                return None;
            },
            Option::Some(d) => d,
        };
        proof {
            assert(spec_hex_digit_val(cs[k as int]) == d as int);
            assert(cs.subrange(10, k as int + 1).drop_last() =~= cs.subrange(10, k as int));
            assert(cs.subrange(10, k as int + 1).last() == cs[k as int]);
            assert(spec_is_hex(cs.subrange(10, k as int + 1))) by {
                assert(forall|j: int|
                    0 <= j < k - 10 ==> cs.subrange(10, k as int + 1)[j] == cs.subrange(
                        10,
                        k as int,
                    )[j]);
            }
            lemma_hex_value_bound(cs.subrange(10, k as int));
            lemma_pow16_increases(cs.subrange(10, k as int).len() as nat, 31);
            assert(spec_pow16(31) * 16 == spec_pow16(32));
            assert(spec_pow16(32) == 0x1_0000_0000_0000_0000_0000_0000_0000_0000) by {
                reveal_with_fuel(spec_pow16, 33);
            }
        }
        lo_acc = lo_acc * 16 + (d as u128);
        k = k + 1;
    }
    proof {
        lemma_hex_value_bound(cs.subrange(2, 10));
        assert(spec_pow16(8) == 0x1_0000_0000) by {
            reveal_with_fuel(spec_pow16, 9);
        }
        assert(spec_is_hex(cs.skip(2))) by {
            assert forall|j: int| 0 <= j < cs.skip(2).len() implies spec_hex_digit_val(
                #[trigger] cs.skip(2)[j],
            ) >= 0 by {
                if j < 8 {
                    assert(cs.subrange(2, 10)[j] == cs.skip(2)[j]);
                } else {
                    assert(cs.subrange(10, 42)[j - 8] == cs.skip(2)[j]);
                }
            }
        }
        assert(cs[0] == '0' && cs[1] == 'x');
    }
    Some(Addr { hi: hi_acc as u32, lo: lo_acc })
}

/// A 160-bit address, split into a high 32-bit word and a low 128-bit word.
#[derive(PartialEq, Eq, Structural, Clone, Copy, Debug, Hash)]
pub struct Addr {
    pub hi: u32,
    pub lo: u128,
}

impl Addr {
    /// The all-zero address.
    pub fn zero() -> (r: Addr)
        ensures
            r == (Addr { hi: 0, lo: 0 }),
    {
        Addr { hi: 0, lo: 0 }
    }

    /// Strict numeric order on addresses.
    pub open spec fn spec_lt(self, other: Addr) -> bool {
        self.hi < other.hi || (self.hi == other.hi && self.lo < other.lo)
    }

    /// Compares two addresses numerically.
    pub fn lt(&self, other: &Addr) -> (r: bool)
        ensures
            r == self.spec_lt(*other),
    {
        self.hi < other.hi || (self.hi == other.hi && self.lo < other.lo)
    }
}

} // verus!
