//! FalcoTCP: a length-prefixed, framed request/response transport.
//!
//! Every body on the wire is the result of an ordered transform chain
//! (compress, then encrypt, then frame) and the exact inverse on receipt.
//! The crate verifies the three coupled subsystems at the core of the
//! transport: the framing/pipeline codec, the completion-based server
//! reactor's per-client state machine, and the client connection pool
//! with broken-pipe repair.  Socket I/O itself stays with the embedding
//! program, which feeds completions in and carries submissions out.

use vstd::prelude::*;

pub mod compress;
pub mod compression_levels;
pub mod crypto;
pub mod errors;
pub mod falco_client;
pub mod falco_pipeline;
pub mod frame;
pub mod heuristics;
pub mod ipv4;
pub mod networker;
pub mod enums;

verus! {

/// The fixed 9-byte wire header that precedes every body:
/// `size` (unsigned 64-bit, little-endian, count of body bytes following
/// the header) then `compression` (one byte, the algorithm tag).
/// `size` names the body length after compression and encryption.
#[derive(Debug, Copy, Clone, PartialEq, Eq, Structural)]
pub struct MessageHeaders {
    pub size: u64,
    pub compr_alg: u8,
}

/// Compression tags with their fixed wire values:
/// `Plain=0, LZMA=1, GZIP=2, LZ4=3, ZSTD=4` (`Plain` standing for the absence of compression).  Unknown values decode to
/// `Plain`; the tag is authoritative on receive.
#[derive(Debug, Copy, Clone, PartialEq, Eq, Structural)]
pub enum CompressionAlgorithm {
    Plain,
    LZMA,
    GZIP,
    LZ4,
    ZSTD,
}

/// The wire value of a compression tag.
pub open spec fn spec_tag_value(alg: CompressionAlgorithm) -> u8 {
    match alg {
        CompressionAlgorithm::Plain => 0,
        CompressionAlgorithm::LZMA => 1,
        CompressionAlgorithm::GZIP => 2,
        CompressionAlgorithm::LZ4 => 3,
        CompressionAlgorithm::ZSTD => 4,
    }
}

/// The compression tag a wire value decodes to; unknown values fall back
/// to `Plain`.
pub open spec fn spec_tag_of_value(value: u8) -> CompressionAlgorithm {
    match value {
        1u8 => CompressionAlgorithm::LZMA,
        2u8 => CompressionAlgorithm::GZIP,
        3u8 => CompressionAlgorithm::LZ4,
        4u8 => CompressionAlgorithm::ZSTD,
        _ => CompressionAlgorithm::Plain,
    }
}

impl From<u8> for CompressionAlgorithm {
    fn from(value: u8) -> (r: Self) {
        match value {
            1 => CompressionAlgorithm::LZMA,
            2 => CompressionAlgorithm::GZIP,
            3 => CompressionAlgorithm::LZ4,
            4 => CompressionAlgorithm::ZSTD,
            _ => CompressionAlgorithm::Plain,
        }
    }
}

impl vstd::std_specs::convert::FromSpecImpl<u8> for CompressionAlgorithm {
    open spec fn obeys_from_spec() -> bool {
        true
    }

    open spec fn from_spec(value: u8) -> Self {
        spec_tag_of_value(value)
    }
}

impl From<CompressionAlgorithm> for u8 {
    fn from(value: CompressionAlgorithm) -> (r: Self) {
        match value {
            CompressionAlgorithm::Plain => 0,
            CompressionAlgorithm::LZMA => 1,
            CompressionAlgorithm::GZIP => 2,
            CompressionAlgorithm::LZ4 => 3,
            CompressionAlgorithm::ZSTD => 4,
        }
    }
}

impl vstd::std_specs::convert::FromSpecImpl<CompressionAlgorithm> for u8 {
    open spec fn obeys_from_spec() -> bool {
        true
    }

    open spec fn from_spec(value: CompressionAlgorithm) -> Self {
        spec_tag_value(value)
    }
}

/// Decoding a tag's wire value gives the tag back.
pub proof fn lemma_tag_value_round_trip(alg: CompressionAlgorithm)
    ensures
        spec_tag_of_value(spec_tag_value(alg)) == alg,
{
}

} // verus!
