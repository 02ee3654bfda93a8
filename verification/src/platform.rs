//! The guest's memory map: fixed regions, the write-once boundary, and the
//! memory-mapped host I/O ports.

use vstd::prelude::*;

verus! {

/// Bytes per machine word.
pub const WORD_SIZE: usize = 4;

/// Word-address bits of the guest address space.
pub const MEM_BITS: usize = 20;

/// Bytes of guest memory.
pub const MEM_SIZE: u32 = 0x0040_0000;

/// Word addresses at or above this are write-once memory: a second store of
/// a different value is a fault.
pub const ROM_START_WORD: u32 = 0x0008_0000;

/// Start of the guest heap, in bytes.
pub const HEAP_START: u32 = 0x0008_0000;

/// Start of the host-to-guest input region, in bytes.
pub const INPUT_START: u32 = 0x0018_0000;

/// End of the host-to-guest input region, in bytes.
pub const INPUT_END: u32 = 0x001C_0000;

/// Start of the journal commit region, in bytes.
pub const COMMIT_START: u32 = 0x0038_0000;

/// I/O ports: writing to each triggers a host callback. They sit in the
/// freely writable half of the address space.
pub const GPIO_COMMIT: u32 = 0x001F_0000;

pub const GPIO_FAULT: u32 = 0x001F_0004;

pub const GPIO_LOG: u32 = 0x001F_0008;

pub const GPIO_GETKEY: u32 = 0x001F_000C;

pub const GPIO_SENDRECV_CHANNEL: u32 = 0x001F_0010;

pub const GPIO_SENDRECV_SIZE: u32 = 0x001F_0014;

pub const GPIO_SENDRECV_ADDR: u32 = 0x001F_0018;

pub const GPIO_SHA: u32 = 0x001F_001C;

pub const GPIO_CYCLECOUNT: u32 = 0x001F_0020;

pub const GPIO_INSECURESHACOMPRESS: u32 = 0x001F_0024;

pub const GPIO_INSECURESHAHASH: u32 = 0x001F_0028;

pub const GPIO_COMPUTE_POLY: u32 = 0x001F_002C;

pub const GPIO_POLY_EVAL: u32 = 0x001F_0030;

pub const GPIO_FFPU: u32 = 0x001F_0034;

/// Align an address upwards to the next multiple of the alignment.
pub fn align_up(addr: usize, align: usize) -> (r: usize)
    requires
        align >= 1,
        addr + align <= usize::MAX,
    ensures
        r == ((addr + align - 1) / (align as int)) * align,
        r % align == 0,
        addr <= r < addr + align,
{
    proof {
        let x = addr as int + align as int - 1;
        let d = align as int;
        vstd::arithmetic::div_mod::lemma_fundamental_div_mod(x, d);
        vstd::arithmetic::div_mod::lemma_mod_division_less_than_divisor(x, d);
        vstd::arithmetic::mul::lemma_mul_is_commutative(d, x / d);
        assert((x / d) * d <= x);
        vstd::arithmetic::div_mod::lemma_mod_multiples_basic(x / d, d);
    }
    let r = (addr + align - 1) / align * align;
    r
}

} // verus!
