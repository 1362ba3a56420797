//! The historical names of the first three formats, and the size of an image
//! compressed in one of them.

use crate::format::{image_bytes, num_blocks};
use vstd::prelude::*;

verus! {

/// A compression format under its historical name.
#[derive(Clone, Copy, Debug, PartialEq, Eq, Structural)]
pub enum Format {
    /// BC1: colour with optional one-bit alpha.
    Dxt1,
    /// BC2: explicit alpha, then colour.
    Dxt3,
    /// BC3: interpolated alpha, then colour.
    Dxt5,
}

/// The strategy by which colour endpoints are searched, under its historical
/// name.
#[derive(Clone, Copy, Debug, PartialEq, Eq, Structural)]
pub enum CompressionAlgorithm {
    /// Fast, low quality.
    ColourRangeFit,
    /// Slow, high quality.
    ColourClusterFit,
    /// Very slow, very high quality.
    ColourIterativeClusterFit,
}

impl Default for CompressionAlgorithm {
    fn default() -> (algorithm: Self)
        ensures
            algorithm == CompressionAlgorithm::ColourClusterFit,
    {
        CompressionAlgorithm::ColourClusterFit
    }
}

impl CompressionAlgorithm {
    /// The strategy under its present name.
    pub open spec fn algorithm(self) -> crate::format::Algorithm {
        match self {
            CompressionAlgorithm::ColourRangeFit => crate::format::Algorithm::RangeFit,
            CompressionAlgorithm::ColourClusterFit => crate::format::Algorithm::ClusterFit,
            CompressionAlgorithm::ColourIterativeClusterFit => {
                crate::format::Algorithm::IterativeClusterFit
            },
        }
    }

    /// The strategy under its present name.
    pub fn to_algorithm(self) -> (algorithm: crate::format::Algorithm)
        ensures
            algorithm == self.algorithm(),
    {
        match self {
            CompressionAlgorithm::ColourRangeFit => crate::format::Algorithm::RangeFit,
            CompressionAlgorithm::ColourClusterFit => crate::format::Algorithm::ClusterFit,
            CompressionAlgorithm::ColourIterativeClusterFit => {
                crate::format::Algorithm::IterativeClusterFit
            },
        }
    }
}

impl Format {
    /// The format under its present name.
    pub open spec fn bc(self) -> crate::format::Format {
        match self {
            Format::Dxt1 => crate::format::Format::Bc1,
            Format::Dxt3 => crate::format::Format::Bc2,
            Format::Dxt5 => crate::format::Format::Bc3,
        }
    }

    /// The format under its present name.
    pub fn to_bc(self) -> (format: crate::format::Format)
        ensures
            format == self.bc(),
    {
        match self {
            Format::Dxt1 => crate::format::Format::Bc1,
            Format::Dxt3 => crate::format::Format::Bc2,
            Format::Dxt5 => crate::format::Format::Bc3,
        }
    }
}

/// How many bytes a block of sixteen texels compresses into.
fn bytes_per_block(format: Format) -> (n: usize)
    ensures
        n == crate::format::block_bytes(format.bc()),
{
    match format {
        Format::Dxt1 => 8,
        Format::Dxt3 => 16,
        Format::Dxt5 => 16,
    }
}

/// The space in bytes that an image of the given size compresses into, each
/// dimension padded to a multiple of four texels.
pub fn compute_compressed_size(width: usize, height: usize, format: Format) -> (n: usize)
    requires
        image_bytes(format.bc(), width as int, height as int) <= usize::MAX,
        width + 3 <= usize::MAX,
        height + 3 <= usize::MAX,
    ensures
        n == image_bytes(format.bc(), width as int, height as int),
{
    let wide: usize = num_blocks(width);
    let high: usize = num_blocks(height);
    assert(wide * high <= wide * high * crate::format::block_bytes(format.bc()))
        by (nonlinear_arith)
        requires
            crate::format::block_bytes(format.bc()) >= 1,
            wide >= 0,
            high >= 0,
    ;
    let n_blocks: usize = wide * high;
    n_blocks * bytes_per_block(format)
}

} // verus!
