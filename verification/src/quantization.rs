//! Quantization settings of a checkpoint.

use vstd::prelude::*;

verus! {

/// Whether values of a width can be unpacked.
pub open spec fn bits_supported(bits: nat) -> bool {
    bits == 4 || bits == 6
}

/// How the weights of a checkpoint are quantized.
#[derive(Debug, Clone, Copy, PartialEq, Eq)]
pub struct QuantizationConfig {
    /// Bits per packed value.
    pub bits: usize,
    /// Columns that share a scale and a bias.
    pub group_size: usize,
}

impl QuantizationConfig {
    /// Tells whether values of a width can be unpacked.
    pub fn supports_bits(bits: usize) -> (r: bool)
        ensures
            r == bits_supported(bits as nat),
    {
        bits == 4 || bits == 6
    }
}

/// Values of four and of six bits can be unpacked, and no others.
pub proof fn law_two_widths(bits: nat)
    ensures
        bits_supported(4),
        bits_supported(6),
        bits_supported(bits) ==> bits == 4 || bits == 6,
{
}

} // verus!
