//! The compression selector: a pure function from payload size, policy
//! and the set of algorithms available to an algorithm tag.
//!
//! The sender runs the selector; the receiver never does, it goes by the
//! tag in the header.  Decisions are deterministic in (size, policy,
//! enabled set).

use vstd::prelude::*;

use crate::enums::CompressionAlgorithm;

verus! {

/// 10 MiB: below this the balanced policy favours ratio.
pub const BALANCED_RATIO_BOUND: usize = 10485760;

/// 200 MiB: from here the balanced policy favours speed over gzip.
pub const BALANCED_MIXED_BOUND: usize = 209715200;

/// 300 MiB: from here the balanced policy takes the fastest compressor.
pub const BALANCED_SPEED_BOUND: usize = 314572800;

/// How the selector weighs speed against ratio.
#[derive(Debug, Copy, Clone, PartialEq, Eq, Structural)]
pub enum HeuristicPolicy {
    /// The fastest compressor available: LZ4, then ZSTD, then GZIP.
    Performance,
    /// The densest compressor available: LZMA, then ZSTD, then GZIP,
    /// then LZ4, for any size.
    Ratio,
    /// A size-keyed mix of the two; the default.
    Balanced,
}

/// Which algorithms the peer has enabled.
#[derive(Debug, Copy, Clone, PartialEq, Eq, Structural)]
pub struct AlgorithmSet {
    pub lzma: bool,
    pub gzip: bool,
    pub zstd: bool,
    pub lz4: bool,
}

impl AlgorithmSet {
    /// The set with every algorithm enabled.
    pub fn all() -> (r: AlgorithmSet)
        ensures
            r == (AlgorithmSet { lzma: true, gzip: true, zstd: true, lz4: true }),
    {
        AlgorithmSet { lzma: true, gzip: true, zstd: true, lz4: true }
    }

    /// Whether `alg` is enabled in this set; `Plain` always is.
    pub open spec fn spec_allows(self, alg: CompressionAlgorithm) -> bool {
        match alg {
            CompressionAlgorithm::Plain => true,
            CompressionAlgorithm::Lzma => self.lzma,
            CompressionAlgorithm::Gzip => self.gzip,
            CompressionAlgorithm::Zstd => self.zstd,
            CompressionAlgorithm::Lz4 => self.lz4,
        }
    }
}

/// The algorithm the selector picks for a payload of `size` bytes under
/// `policy`, out of the algorithms enabled in `set`.
pub open spec fn spec_select(size: usize, policy: HeuristicPolicy, set: AlgorithmSet)
    -> CompressionAlgorithm {
    match policy {
        HeuristicPolicy::Performance => {
            if set.lz4 {
                CompressionAlgorithm::Lz4
            } else if set.zstd {
                CompressionAlgorithm::Zstd
            } else if set.gzip {
                CompressionAlgorithm::Gzip
            } else {
                CompressionAlgorithm::Plain
            }
        },
        HeuristicPolicy::Ratio => {
            if set.lzma {
                CompressionAlgorithm::Lzma
            } else if set.zstd {
                CompressionAlgorithm::Zstd
            } else if set.gzip {
                CompressionAlgorithm::Gzip
            } else if set.lz4 {
                CompressionAlgorithm::Lz4
            } else {
                CompressionAlgorithm::Plain
            }
        },
        HeuristicPolicy::Balanced => {
            if size < BALANCED_RATIO_BOUND {
                if set.lzma {
                    CompressionAlgorithm::Lzma
                } else if set.gzip {
                    CompressionAlgorithm::Gzip
                } else if set.zstd {
                    CompressionAlgorithm::Zstd
                } else if set.lz4 {
                    CompressionAlgorithm::Lz4
                } else {
                    CompressionAlgorithm::Plain
                }
            } else if size < BALANCED_MIXED_BOUND {
                if set.gzip {
                    CompressionAlgorithm::Gzip
                } else if set.zstd {
                    CompressionAlgorithm::Zstd
                } else if set.lz4 {
                    CompressionAlgorithm::Lz4
                } else {
                    CompressionAlgorithm::Plain
                }
            } else if size < BALANCED_SPEED_BOUND {
                if set.zstd {
                    CompressionAlgorithm::Zstd
                } else if set.gzip {
                    CompressionAlgorithm::Gzip
                } else {
                    CompressionAlgorithm::Plain
                }
            } else {
                if set.lz4 {
                    CompressionAlgorithm::Lz4
                } else {
                    CompressionAlgorithm::Plain
                }
            }
        },
    }
}

/// Pick the algorithm for a payload of `size` bytes under `policy` from
/// the algorithms enabled in `set`.
pub fn select_compressor(size: usize, policy: HeuristicPolicy, set: AlgorithmSet)
    -> (r: CompressionAlgorithm)
    ensures
        r == spec_select(size, policy, set),
        set.spec_allows(r),
{
    match policy {
        HeuristicPolicy::Performance => {
            if set.lz4 {
                CompressionAlgorithm::Lz4
            } else if set.zstd {
                CompressionAlgorithm::Zstd
            } else if set.gzip {
                CompressionAlgorithm::Gzip
            } else {
                CompressionAlgorithm::Plain
            }
        },
        HeuristicPolicy::Ratio => {
            if set.lzma {
                CompressionAlgorithm::Lzma
            } else if set.zstd {
                CompressionAlgorithm::Zstd
            } else if set.gzip {
                CompressionAlgorithm::Gzip
            } else if set.lz4 {
                CompressionAlgorithm::Lz4
            } else {
                CompressionAlgorithm::Plain
            }
        },
        HeuristicPolicy::Balanced => {
            if size < BALANCED_RATIO_BOUND {
                if set.lzma {
                    CompressionAlgorithm::Lzma
                } else if set.gzip {
                    CompressionAlgorithm::Gzip
                } else if set.zstd {
                    CompressionAlgorithm::Zstd
                } else if set.lz4 {
                    CompressionAlgorithm::Lz4
                } else {
                    CompressionAlgorithm::Plain
                }
            } else if size < BALANCED_MIXED_BOUND {
                if set.gzip {
                    CompressionAlgorithm::Gzip
                } else if set.zstd {
                    CompressionAlgorithm::Zstd
                } else if set.lz4 {
                    CompressionAlgorithm::Lz4
                } else {
                    CompressionAlgorithm::Plain
                }
            } else if size < BALANCED_SPEED_BOUND {
                if set.zstd {
                    CompressionAlgorithm::Zstd
                } else if set.gzip {
                    CompressionAlgorithm::Gzip
                } else {
                    CompressionAlgorithm::Plain
                }
            } else {
                if set.lz4 {
                    CompressionAlgorithm::Lz4
                } else {
                    CompressionAlgorithm::Plain
                }
            }
        },
    }
}

/// The balanced selector with every algorithm enabled: the default the
/// sender runs when no fixed algorithm is configured.
pub fn get_compressor(size: usize) -> (r: CompressionAlgorithm)
    ensures
        r == spec_select(size, HeuristicPolicy::Balanced, AlgorithmSet {
            lzma: true,
            gzip: true,
            zstd: true,
            lz4: true,
        }),
{
    select_compressor(size, HeuristicPolicy::Balanced, AlgorithmSet::all())
}

} // verus!
