//! Big-endian integers inside byte buffers.

use vstd::prelude::*;

verus! {

/// The big-endian 32-bit number in the four bytes from `at` on.
pub open spec fn be_u32(b: Seq<u8>, at: int) -> nat {
    b[at] as nat * 0x100_0000 + b[at + 1] as nat * 0x1_0000 + b[at + 2] as nat * 0x100 + b[at + 3] as nat
}

/// The big-endian 24-bit number in the three bytes from `at` on.
pub open spec fn be_u24(b: Seq<u8>, at: int) -> nat {
    b[at] as nat * 0x1_0000 + b[at + 1] as nat * 0x100 + b[at + 2] as nat
}

/// Reads a big-endian 32-bit number.
pub fn read_be_u32(b: &[u8], at: usize) -> (r: u32)
    requires
        at + 4 <= b@.len(),
    ensures
        r as nat == be_u32(b@, at as int),
{
    (b[at] as u32) * 0x100_0000 + (b[at + 1] as u32) * 0x1_0000 + (b[at + 2] as u32) * 0x100 + (b[at
        + 3] as u32)
}

/// Reads a big-endian 24-bit number.
pub fn read_be_u24(b: &[u8], at: usize) -> (r: u32)
    requires
        at + 3 <= b@.len(),
    ensures
        r as nat == be_u24(b@, at as int),
{
    (b[at] as u32) * 0x1_0000 + (b[at + 1] as u32) * 0x100 + (b[at + 2] as u32)
}

} // verus!
