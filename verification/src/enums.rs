//! The pipeline's view of the compression algorithms.
//!
//! `CompressionAlgorithm` here is the type the codec and the selector work
//! with; the crate root holds the wire-tag twin with its `From`
//! conversions.  The two use the same wire values.

use vstd::prelude::*;

verus! {

/// An algorithm the pipeline can compress with; `Plain` passes bytes
/// through unchanged.
#[derive(Debug, Copy, Clone, PartialEq, Eq, Structural)]
pub enum CompressionAlgorithm {
    Plain,
    Lzma,
    Zstd,
    Gzip,
    Lz4,
}

/// The wire value of an algorithm: `None=0, Lzma=1, Gzip=2, Lz4=3,
/// Zstd=4`.
pub open spec fn spec_alg_u8(alg: CompressionAlgorithm) -> u8 {
    match alg {
        CompressionAlgorithm::Plain => 0,
        CompressionAlgorithm::Lzma => 1,
        CompressionAlgorithm::Gzip => 2,
        CompressionAlgorithm::Lz4 => 3,
        CompressionAlgorithm::Zstd => 4,
    }
}

/// The algorithm a wire value decodes to; unknown values fall back to
/// `Plain`.
pub open spec fn spec_alg_from_u8(value: u8) -> CompressionAlgorithm {
    match value {
        1u8 => CompressionAlgorithm::Lzma,
        2u8 => CompressionAlgorithm::Gzip,
        3u8 => CompressionAlgorithm::Lz4,
        4u8 => CompressionAlgorithm::Zstd,
        _ => CompressionAlgorithm::Plain,
    }
}

impl CompressionAlgorithm {
    /// The wire value of this algorithm.
    pub fn u8(self) -> (r: u8)
        ensures
            r == spec_alg_u8(self),
    {
        match self {
            CompressionAlgorithm::Lzma => 1,
            CompressionAlgorithm::Zstd => 4,
            CompressionAlgorithm::Gzip => 2,
            CompressionAlgorithm::Lz4 => 3,
            CompressionAlgorithm::Plain => 0,
        }
    }

    /// Return one of the available compression algorithms, preferring the
    /// strongest.
    pub fn get() -> (r: Self)
        ensures
            r == CompressionAlgorithm::Lzma,
    {
        CompressionAlgorithm::Lzma
    }
}

impl From<u8> for CompressionAlgorithm {
    fn from(s: u8) -> (r: CompressionAlgorithm) {
        match s {
            1 => CompressionAlgorithm::Lzma,
            4 => CompressionAlgorithm::Zstd,
            2 => CompressionAlgorithm::Gzip,
            3 => CompressionAlgorithm::Lz4,
            _ => CompressionAlgorithm::Plain,
        }
    }
}

impl vstd::std_specs::convert::FromSpecImpl<u8> for CompressionAlgorithm {
    open spec fn obeys_from_spec() -> bool {
        true
    }

    open spec fn from_spec(s: u8) -> Self {
        spec_alg_from_u8(s)
    }
}

/// Decoding an algorithm's wire value gives the algorithm back.
pub proof fn lemma_alg_u8_round_trip(alg: CompressionAlgorithm)
    ensures
        spec_alg_from_u8(spec_alg_u8(alg)) == alg,
{
}

} // verus!
