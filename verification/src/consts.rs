//! Global size parameters of the proof system.

use vstd::prelude::*;

verus! {

/// log2 of the smallest supported trace length.
pub const MIN_CYCLES_PO2: usize = 10;

/// log2 of the largest supported trace length.
pub const MAX_CYCLES_PO2: usize = 24;

/// The smallest supported trace length.
pub const MIN_CYCLES: usize = 1024;

/// The largest supported trace length.
pub const MAX_CYCLES: usize = 16777216;

/// Blinding cycles appended for zero knowledge.
pub const ZK_CYCLES: usize = 512;

/// The evaluation-domain blow-up factor.
pub const INV_RATE: usize = 4;

/// FRI folding stops below this degree.
pub const FRI_MIN_DEGREE: usize = 256;

/// The FRI fold factor, as a power of two.
pub const FOLD_PO2: usize = 4;

/// The security parameter: how many queries a proof answers.
pub const QUERIES: usize = 50;

/// The number of check polynomials: one per extension coordinate, times
/// the extension degree.
pub const CHECK_SIZE: usize = 16;

} // verus!
