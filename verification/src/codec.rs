//! Big-endian field decoding for log payloads and snapshot records.

use vstd::prelude::*;
use crate::addr::Addr;

verus! {

/// The unsigned 32-bit value of the four bytes at `s`, most significant
/// first.
pub open spec fn spec_u32_at(data: Seq<u8>, s: int) -> u32 {
    (data[s] * 0x100_0000 + data[s + 1] * 0x1_0000 + data[s + 2] * 0x100 + data[s + 3]) as u32
}

/// The unsigned 64-bit value of the eight bytes at `s`, most significant
/// first.
pub open spec fn spec_u64_at(data: Seq<u8>, s: int) -> u64 {
    (data[s] * 0x100_0000_0000_0000 + data[s + 1] * 0x1_0000_0000_0000 + data[s + 2]
        * 0x100_0000_0000 + data[s + 3] * 0x1_0000_0000 + data[s + 4] * 0x100_0000 + data[s + 5]
        * 0x1_0000 + data[s + 6] * 0x100 + data[s + 7]) as u64
}

/// The unsigned 128-bit value of the sixteen bytes at `s`, most
/// significant first.
pub open spec fn spec_u128_at(data: Seq<u8>, s: int) -> u128 {
    (spec_u64_at(data, s) * 0x1_0000_0000_0000_0000 + spec_u64_at(data, s + 8)) as u128
}

/// The 160-bit address held in the twenty bytes at `s`: four high bytes,
/// then sixteen low bytes.
pub open spec fn spec_addr_at(data: Seq<u8>, s: int) -> Addr {
    Addr { hi: spec_u32_at(data, s), lo: spec_u128_at(data, s + 4) }
}

/// Reads the big-endian 32-bit field at `s`.
pub fn be_u32(data: &Vec<u8>, s: usize) -> (r: u32)
    requires
        s + 4 <= data@.len(),
    ensures
        r == spec_u32_at(data@, s as int),
{
    proof {
        vstd::std_specs::vec::axiom_spec_len(data);
    }
    (data[s] as u32) * 0x100_0000 + (data[s + 1] as u32) * 0x1_0000 + (data[s + 2] as u32) * 0x100
        + (data[s + 3] as u32)
}

/// Reads the big-endian 64-bit field at `s`.
pub fn be_u64(data: &Vec<u8>, s: usize) -> (r: u64)
    requires
        s + 8 <= data@.len(),
    ensures
        r == spec_u64_at(data@, s as int),
{
    proof {
        vstd::std_specs::vec::axiom_spec_len(data);
    }
    (data[s] as u64) * 0x100_0000_0000_0000 + (data[s + 1] as u64) * 0x1_0000_0000_0000 + (data[s
        + 2] as u64) * 0x100_0000_0000 + (data[s + 3] as u64) * 0x1_0000_0000 + (data[s + 4] as u64)
        * 0x100_0000 + (data[s + 5] as u64) * 0x1_0000 + (data[s + 6] as u64) * 0x100 + (data[s
        + 7] as u64)
}

/// Reads the big-endian 128-bit field at `s`.
pub fn be_u128(data: &Vec<u8>, s: usize) -> (r: u128)
    requires
        s + 16 <= data@.len(),
    ensures
        r == spec_u128_at(data@, s as int),
{
    proof {
        vstd::std_specs::vec::axiom_spec_len(data);
    }
    (be_u64(data, s) as u128) * 0x1_0000_0000_0000_0000 + (be_u64(data, s + 8) as u128)
}

/// Reads the 160-bit address field at `s`.
pub fn addr_at(data: &Vec<u8>, s: usize) -> (r: Addr)
    requires
        s + 20 <= data@.len(),
    ensures
        r == spec_addr_at(data@, s as int),
{
    proof {
        vstd::std_specs::vec::axiom_spec_len(data);
    }
    Addr { hi: be_u32(data, s), lo: be_u128(data, s + 4) }
}

} // verus!
