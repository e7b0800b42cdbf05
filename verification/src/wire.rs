//! How numbers are spelled on the wire: big-endian groups of eight bits, and
//! two's complement for the signed widths.

use vstd::prelude::*;

verus! {

/// The number that `s` spells in big-endian order: the first byte weighs most.
pub open spec fn be_value(s: Seq<u8>) -> nat
    decreases s.len(),
{
    if s.len() == 0 {
        0
    } else {
        256 * be_value(s.drop_last()) + s.last() as nat
    }
}

/// The two's-complement reading of an 8-bit pattern.
pub open spec fn signed8(n: nat) -> int {
    if n < 0x80 {
        n as int
    } else {
        n - 0x100
    }
}

/// The two's-complement reading of a 16-bit pattern.
pub open spec fn signed16(n: nat) -> int {
    if n < 0x8000 {
        n as int
    } else {
        n - 0x1_0000
    }
}

/// The two's-complement reading of a 32-bit pattern.
pub open spec fn signed32(n: nat) -> int {
    if n < 0x8000_0000 {
        n as int
    } else {
        n - 0x1_0000_0000
    }
}

/// The two's-complement reading of a 64-bit pattern.
pub open spec fn signed64(n: nat) -> int {
    if n < 0x8000_0000_0000_0000 {
        n as int
    } else {
        n - 0x1_0000_0000_0000_0000
    }
}

} // verus!
