//! Compression level constants, one per algorithm that takes a level.

use vstd::prelude::*;

verus! {

pub const LZMA_LEVEL: usize = 4;

pub const GZIP_LEVEL: usize = 5;

pub const ZSTD_LEVEL: usize = 6;

} // verus!
