//! The transport's error surface.
//!
//! One kind per failure class; a value carries an OS code only where the
//! underlying I/O supplied one.

use vstd::prelude::*;

verus! {

/// Everything a caller of the transport can be told went wrong.
#[derive(Debug, Copy, Clone, PartialEq, Eq, Structural)]
pub enum FalcoError {
    /// Bad host, zero pool or worker count, or a buffer over its bound.
    InvalidConfiguration,
    /// An underlying read/write/accept/connect failed; carries the OS code.
    IoFailed(i32),
    /// A per-direction or per-request deadline expired.
    Timeout,
    /// Fewer bytes arrived than the header promised.
    ShortRead,
    /// The AEAD tag check failed; the connection must be dropped.
    AuthenticationFailed,
    /// The body was malformed after decryption.
    DecompressionFailed,
    /// Regeneration failed and no pool entries remain.
    PoolExhausted,
    /// An encrypted body too short to hold a nonce and a tag.
    InvalidData,
}

/// The brief description `describe` returns for each kind.
pub open spec fn spec_describe(e: FalcoError) -> Seq<char> {
    match e {
        FalcoError::InvalidConfiguration => "invalid configuration"@,
        FalcoError::IoFailed(_) => "i/o failure"@,
        FalcoError::Timeout => "timed out"@,
        FalcoError::ShortRead => "short read"@,
        FalcoError::AuthenticationFailed => "authentication failed"@,
        FalcoError::DecompressionFailed => "decompression failed"@,
        FalcoError::PoolExhausted => "pool exhausted"@,
        FalcoError::InvalidData => "invalid encrypted data"@,
    }
}

impl FalcoError {
    /// A brief description of the error kind.
    pub fn describe(&self) -> (r: &'static str)
        ensures
            r@ == spec_describe(*self),
    {
        match self {
            FalcoError::InvalidConfiguration => "invalid configuration",
            FalcoError::IoFailed(_) => "i/o failure",
            FalcoError::Timeout => "timed out",
            FalcoError::ShortRead => "short read",
            FalcoError::AuthenticationFailed => "authentication failed",
            FalcoError::DecompressionFailed => "decompression failed",
            FalcoError::PoolExhausted => "pool exhausted",
            FalcoError::InvalidData => "invalid encrypted data",
        }
    }
}

} // verus!
