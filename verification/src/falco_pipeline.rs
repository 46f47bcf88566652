//! The pipeline codec: compress then encrypt on send, decrypt then
//! decompress on receive.
//!
//! Send compresses the plaintext (prefixing the 8-byte big-endian
//! original size when the algorithm is LZ4), draws a fresh 96-bit nonce,
//! seals with AES-256-GCM when encryption is on, and returns the wire tag
//! with the wire body.  Receive inverts the chain exactly, going by the
//! tag alone.  The round-trip contract lives in `pipeline_receive`'s
//! recovery clause and is exercised by `pipeline_round_trip`.

use vstd::prelude::*;

use crate::compress::gzip_compress;
use crate::compress::gzip_decompress;
use crate::compress::gzip_of;
use crate::compress::lz4_compress;
use crate::compress::lz4_decompress;
use crate::compress::lz4_of;
use crate::compress::lzma_compress;
use crate::compress::lzma_decompress;
use crate::compress::lzma_of;
use crate::compress::zstd_compress;
use crate::compress::zstd_decompress;
use crate::compress::zstd_of;
use crate::crypto::aead_open;
use crate::crypto::aead_seal;
use crate::crypto::aead_seal_of;
use crate::crypto::fresh_nonce;
use crate::crypto::KEY_LEN;
use crate::crypto::MAX_SEAL_INPUT;
use crate::crypto::NONCE_LEN;
use crate::crypto::TAG_LEN;
use crate::enums::spec_alg_from_u8;
use crate::enums::spec_alg_u8;
use crate::enums::CompressionAlgorithm;
use crate::errors::FalcoError;
use crate::frame::lemma_u64_be_bytes_round_trip;
use crate::frame::spec_u64_to_be_bytes;
use crate::frame::u64_from_be_bytes;
use crate::frame::u64_to_be_bytes;
use crate::heuristics::select_compressor;
use crate::heuristics::spec_select;
use crate::heuristics::AlgorithmSet;
use crate::heuristics::HeuristicPolicy;

verus! {

/// How the sender chooses its compression algorithm: a fixed one, or the
/// size-keyed selector under a policy and an enabled set.
#[derive(Debug, Copy, Clone, PartialEq, Eq, Structural)]
pub enum CompressionChoice {
    Fixed(CompressionAlgorithm),
    Heuristic(HeuristicPolicy, AlgorithmSet),
}

/// Per-peer pipeline state: the 32-byte AEAD key when encryption is on,
/// and the compression choice.  Sender and receiver share one `Var`;
/// keys are provisioned out of band.
pub struct Var {
    key: Option<Vec<u8>>,
    compression: CompressionChoice,
}

impl Var {
    /// Whether this configuration encrypts.
    pub closed spec fn spec_encrypted(&self) -> bool {
        self.key is Some
    }

    /// The AEAD key bytes; meaningful only when encryption is on.
    pub closed spec fn spec_key(&self) -> Seq<u8> {
        self.key->0@
    }

    /// The configured compression choice.
    pub closed spec fn spec_choice(&self) -> CompressionChoice {
        self.compression
    }

    /// A well-formed configuration holds a key of exactly 32 bytes when
    /// encryption is on.
    pub open spec fn wf(&self) -> bool {
        self.spec_encrypted() ==> self.spec_key().len() == KEY_LEN
    }

    /// Build a configuration.  `key` must be 32 bytes when given;
    /// anything else is an invalid configuration.
    pub fn new(key: Option<Vec<u8>>, compression: CompressionChoice) -> (r: Result<
        Var,
        FalcoError,
    >)
        ensures
            r matches Ok(v) ==> {
                &&& v.wf()
                &&& v.spec_choice() == compression
                &&& (v.spec_encrypted() <==> key is Some)
                &&& (key matches Some(k) ==> v.spec_key() == k@)
            },
            r is Err <==> (key matches Some(k) && k@.len() != KEY_LEN),
            r is Err ==> r == Result::<Var, FalcoError>::Err(FalcoError::InvalidConfiguration),
    {
        match key {
            Some(k) => {
                if k.len() != KEY_LEN {
                    Err(FalcoError::InvalidConfiguration)
                } else {
                    Ok(Var { key: Some(k), compression })
                }
            },
            None => Ok(Var { key: None, compression }),
        }
    }

    /// Whether this configuration encrypts.
    pub fn encrypted(&self) -> (r: bool)
        ensures
            r == self.spec_encrypted(),
    {
        self.key.is_some()
    }
}

/// The algorithm the sender picks for a plaintext of `size` bytes under
/// configuration `v`.
pub open spec fn spec_selected_alg(v: Var, size: usize) -> CompressionAlgorithm {
    match v.spec_choice() {
        CompressionChoice::Fixed(a) => a,
        CompressionChoice::Heuristic(p, set) => spec_select(size, p, set),
    }
}

/// The compressed form of `data` under `alg`: the compressed stream, with
/// the 8-byte big-endian original size prepended when the algorithm is
/// LZ4 (LZ4's block format does not store it).
pub open spec fn spec_compressed(alg: CompressionAlgorithm, data: Seq<u8>) -> Seq<u8> {
    match alg {
        CompressionAlgorithm::Plain => data,
        CompressionAlgorithm::Lzma => lzma_of(data),
        CompressionAlgorithm::Gzip => gzip_of(data),
        CompressionAlgorithm::Zstd => zstd_of(data),
        CompressionAlgorithm::Lz4 => spec_u64_to_be_bytes(data.len() as u64) + lz4_of(data),
    }
}

/// The wire form of an already-compressed body `c`: when encryption is
/// on, the nonce followed by the sealed bytes; otherwise `c` itself.
pub open spec fn spec_enc_body(v: Var, nonce: Seq<u8>, c: Seq<u8>) -> Seq<u8> {
    if v.spec_encrypted() {
        nonce + aead_seal_of(v.spec_key(), nonce, c)
    } else {
        c
    }
}

/// The whole wire body for plaintext `data` under configuration `v` and
/// nonce `nonce`.
pub open spec fn spec_wire_body(v: Var, nonce: Seq<u8>, data: Seq<u8>) -> Seq<u8> {
    spec_enc_body(v, nonce, spec_compressed(spec_selected_alg(v, data.len() as usize), data))
}

/// The wire tag for plaintext `data` under configuration `v`.
pub open spec fn spec_wire_tag(v: Var, data: Seq<u8>) -> u8 {
    spec_alg_u8(spec_selected_alg(v, data.len() as usize))
}

/// Compress `data` under `alg`, with the LZ4 size prefix.
fn compress_body(alg: CompressionAlgorithm, data: Vec<u8>) -> (r: Vec<u8>)
    ensures
        r@ == spec_compressed(alg, data@),
{
    match alg {
        CompressionAlgorithm::Plain => data,
        CompressionAlgorithm::Lzma => lzma_compress(data.as_slice()),
        CompressionAlgorithm::Gzip => gzip_compress(data.as_slice()),
        CompressionAlgorithm::Zstd => zstd_compress(data.as_slice()),
        CompressionAlgorithm::Lz4 => {
            let mut r = u64_to_be_bytes(data.len() as u64);
            let mut block = lz4_compress(data.as_slice());
            let ghost prefix = r@;
            let ghost blk = block@;
            r.append(&mut block);
            proof {
                assert(r@ =~= prefix + blk);
            }
            r
        },
    }
}

/// Send half of the pipeline: select, compress, seal, and return the
/// wire tag with the wire body.
///
/// On success the body is exactly `spec_wire_body` for some fresh
/// 12-byte nonce and the tag is `spec_wire_tag`.  The only failure is a
/// compressed body over the sealing bound when encryption is on.
pub fn pipeline_send(input: Vec<u8>, var: &Var) -> (r: Result<(u8, Vec<u8>), FalcoError>)
    requires
        var.wf(),
    ensures
        r matches Ok((tag, body)) ==> {
            &&& tag == spec_wire_tag(*var, input@)
            &&& exists|nonce: Seq<u8>|
                nonce.len() == NONCE_LEN && body@ == #[trigger] spec_wire_body(*var, nonce, input@)
            &&& (var.spec_encrypted() ==> body@.len() == NONCE_LEN + spec_compressed(
                spec_selected_alg(*var, input@.len() as usize),
                input@,
            ).len() + TAG_LEN)
            &&& (var.spec_encrypted() ==> body@.len() >= NONCE_LEN + TAG_LEN)
        },
        r is Err <==> (var.spec_encrypted() && spec_compressed(
            spec_selected_alg(*var, input@.len() as usize),
            input@,
        ).len() > MAX_SEAL_INPUT),
        r is Err ==> r == Result::<(u8, Vec<u8>), FalcoError>::Err(FalcoError::InvalidConfiguration),
{
    let ghost input0 = input@;
    let input_len = input.len();
    let alg = match &var.compression {
        CompressionChoice::Fixed(a) => *a,
        CompressionChoice::Heuristic(p, set) => select_compressor(input_len, *p, *set),
    };
    proof {
        assert(alg == spec_selected_alg(*var, input0.len() as usize));
    }
    let compressed = compress_body(alg, input);
    let ghost c = compressed@;
    match &var.key {
        Some(k) => {
            if compressed.len() > MAX_SEAL_INPUT {
                return Err(FalcoError::InvalidConfiguration);
            }
            let nonce = fresh_nonce();
            let mut sealed = aead_seal(k.as_slice(), nonce.as_slice(), compressed.as_slice());
            let ghost n = nonce@;
            let mut body = nonce;
            body.append(&mut sealed);
            proof {
                assert(body@ =~= n + aead_seal_of(var.spec_key(), n, c));
                assert(body@ == spec_wire_body(*var, n, input0));
            }
            Ok((alg.u8(), body))
        },
        None => {
            proof {
                let n = Seq::<u8>::new(NONCE_LEN as nat, |i: int| 0u8);
                assert(n.len() == NONCE_LEN);
                assert(compressed@ == spec_wire_body(*var, n, input0));
            }
            Ok((alg.u8(), compressed))
        },
    }
}

/// Receive half of the pipeline: split and open the sealed body when
/// encryption is on, then decompress by the wire tag.
///
/// The recovery clause is the round-trip contract: any body that equals
/// the send chain's output for some plaintext `x`, some 12-byte nonce and
/// the algorithm named by the tag comes back as exactly `x`.  An
/// encrypted body shorter than the minimum envelope (nonce plus tag) is
/// `InvalidData`; a sealed body that no sealing under this key produced
/// is `AuthenticationFailed`; everything else that fails is
/// `DecompressionFailed`.
pub fn pipeline_receive(compr_alg: u8, input: Vec<u8>, var: &Var) -> (r: Result<
    Vec<u8>,
    FalcoError,
>)
    requires
        var.wf(),
    ensures
        forall|x: Seq<u8>, nonce: Seq<u8>, alg: CompressionAlgorithm|
            {
                &&& compr_alg == spec_alg_u8(alg)
                &&& nonce.len() == NONCE_LEN
                &&& x.len() <= usize::MAX
                &&& (var.spec_encrypted() ==> input@.len() >= NONCE_LEN + TAG_LEN)
                &&& input@ == #[trigger] spec_enc_body(*var, nonce, spec_compressed(alg, x))
            } ==> r is Ok && r->Ok_0@ == x,
        r == Result::<Vec<u8>, FalcoError>::Err(FalcoError::InvalidData) <==> (var.spec_encrypted()
            && input@.len() < NONCE_LEN + TAG_LEN),
        var.spec_encrypted() && input@.len() >= NONCE_LEN + TAG_LEN ==> (r == Result::<
            Vec<u8>,
            FalcoError,
        >::Err(FalcoError::AuthenticationFailed) <==> !(exists|p: Seq<u8>|
            input@.subrange(NONCE_LEN as int, input@.len() as int) == #[trigger] aead_seal_of(
                var.spec_key(),
                input@.subrange(0, NONCE_LEN as int),
                p,
            ))),
        r is Err ==> (r == Result::<Vec<u8>, FalcoError>::Err(FalcoError::InvalidData) || r
            == Result::<Vec<u8>, FalcoError>::Err(FalcoError::AuthenticationFailed) || r
            == Result::<Vec<u8>, FalcoError>::Err(FalcoError::DecompressionFailed)),
        (!var.spec_encrypted() && spec_alg_from_u8(compr_alg) is Plain) ==> (r matches Ok(v)
            && v@ == input@),
        !var.spec_encrypted() ==> r != Result::<Vec<u8>, FalcoError>::Err(
            FalcoError::AuthenticationFailed,
        ),
        (!var.spec_encrypted() && spec_alg_from_u8(compr_alg) is Lz4 && input@.len() < 8) ==> r
            == Result::<Vec<u8>, FalcoError>::Err(FalcoError::DecompressionFailed),
        (var.spec_encrypted() && input@.len() >= NONCE_LEN + TAG_LEN && spec_alg_from_u8(compr_alg)
            is Lz4 && (exists|p: Seq<u8>|
            input@.subrange(NONCE_LEN as int, input@.len() as int) == #[trigger] aead_seal_of(
                var.spec_key(),
                input@.subrange(0, NONCE_LEN as int),
                p,
            ) && p.len() < 8)) ==> r == Result::<Vec<u8>, FalcoError>::Err(
            FalcoError::DecompressionFailed,
        ),
{
    let ghost input0 = input@;
    let alg = CompressionAlgorithm::from(compr_alg);
    proof {
        assert(alg == spec_alg_from_u8(compr_alg));
        assert(forall|a: CompressionAlgorithm| spec_alg_from_u8(spec_alg_u8(a)) == a);
    }
    let data: Vec<u8> = match &var.key {
        Some(k) => {
            if input.len() < NONCE_LEN + TAG_LEN {
                return Err(FalcoError::InvalidData);
            }
            let nonce = vstd::slice::slice_subrange(input.as_slice(), 0, NONCE_LEN);
            let payload = vstd::slice::slice_subrange(input.as_slice(), NONCE_LEN, input.len());
            match aead_open(k.as_slice(), nonce, payload) {
                Some(d) => {
                    proof {
                        assert forall|x: Seq<u8>, nonce_h: Seq<u8>, alg_h: CompressionAlgorithm|
                            {
                                &&& nonce_h.len() == NONCE_LEN
                                &&& input0 == #[trigger] spec_enc_body(
                                    *var,
                                    nonce_h,
                                    spec_compressed(alg_h, x),
                                )
                            } implies nonce_h == input0.subrange(0, NONCE_LEN as int) && d@
                            == spec_compressed(alg_h, x) by {
                            let c_h = spec_compressed(alg_h, x);
                            assert(input0 == nonce_h + aead_seal_of(var.spec_key(), nonce_h, c_h));
                            assert(nonce_h =~= input0.subrange(0, NONCE_LEN as int));
                            assert(input0.subrange(NONCE_LEN as int, input0.len() as int)
                                =~= aead_seal_of(var.spec_key(), nonce_h, c_h));
                        }
                    }
                    d
                },
                None => {
                    proof {
                        assert forall|x: Seq<u8>, nonce_h: Seq<u8>, alg_h: CompressionAlgorithm|
                            {
                                &&& nonce_h.len() == NONCE_LEN
                                &&& input0 == #[trigger] spec_enc_body(
                                    *var,
                                    nonce_h,
                                    spec_compressed(alg_h, x),
                                )
                            } implies false by {
                            let c_h = spec_compressed(alg_h, x);
                            assert(input0 == nonce_h + aead_seal_of(var.spec_key(), nonce_h, c_h));
                            assert(nonce_h =~= input0.subrange(0, NONCE_LEN as int));
                            assert(input0.subrange(NONCE_LEN as int, input0.len() as int)
                                =~= aead_seal_of(var.spec_key(), nonce_h, c_h));
                        }
                    }
                    return Err(FalcoError::AuthenticationFailed);
                },
            }
        },
        None => input,
    };
    let ghost dv = data@;
    proof {
        assert forall|x: Seq<u8>, nonce_h: Seq<u8>, alg_h: CompressionAlgorithm|
            {
                &&& nonce_h.len() == NONCE_LEN
                &&& (var.spec_encrypted() ==> input0.len() >= NONCE_LEN + TAG_LEN)
                &&& input0 == #[trigger] spec_enc_body(*var, nonce_h, spec_compressed(alg_h, x))
            } implies dv == spec_compressed(alg_h, x) by {
            if !var.spec_encrypted() {
                assert(dv == input0);
            }
        }
    }
    let out: Result<Vec<u8>, FalcoError> = match alg {
        CompressionAlgorithm::Plain => Ok(data),
        CompressionAlgorithm::Lzma => {
            match lzma_decompress(data.as_slice()) {
                Some(v) => Ok(v),
                None => Err(FalcoError::DecompressionFailed),
            }
        },
        CompressionAlgorithm::Gzip => {
            match gzip_decompress(data.as_slice()) {
                Some(v) => Ok(v),
                None => Err(FalcoError::DecompressionFailed),
            }
        },
        CompressionAlgorithm::Zstd => {
            match zstd_decompress(data.as_slice()) {
                Some(v) => Ok(v),
                None => Err(FalcoError::DecompressionFailed),
            }
        },
        CompressionAlgorithm::Lz4 => {
            if data.len() < 8 {
                Err(FalcoError::DecompressionFailed)
            } else {
                let size64 = u64_from_be_bytes(vstd::slice::slice_subrange(data.as_slice(), 0, 8));
                if size64 > usize::MAX as u64 {
                    Err(FalcoError::DecompressionFailed)
                } else {
                    let block = vstd::slice::slice_subrange(data.as_slice(), 8, data.len());
                    match lz4_decompress(block, size64 as usize) {
                        Some(v) => Ok(v),
                        None => Err(FalcoError::DecompressionFailed),
                    }
                }
            }
        },
    };
    proof {
        assert forall|x: Seq<u8>, nonce_h: Seq<u8>, alg_h: CompressionAlgorithm|
            {
                &&& compr_alg == spec_alg_u8(alg_h)
                &&& nonce_h.len() == NONCE_LEN
                &&& x.len() <= usize::MAX
                &&& (var.spec_encrypted() ==> input0.len() >= NONCE_LEN + TAG_LEN)
                &&& input0 == #[trigger] spec_enc_body(*var, nonce_h, spec_compressed(alg_h, x))
            } implies out is Ok && out->Ok_0@ == x by {
            assert(alg_h == alg);
            assert(dv == spec_compressed(alg_h, x));
            if alg_h is Lz4 {
                lemma_u64_be_bytes_round_trip(x.len() as u64);
                assert(dv.subrange(0, 8) =~= spec_u64_to_be_bytes(x.len() as u64));
                assert(dv.subrange(8, dv.len() as int) =~= lz4_of(x));
            }
        }
    }
    out
}

/// The round-trip law: what `pipeline_send` produces under a matching
/// configuration, `pipeline_receive` maps back to the original
/// plaintext.  The only failure is a compressed body over the sealing
/// bound when encryption is on; without encryption the round trip always
/// succeeds.
pub fn pipeline_round_trip(input: Vec<u8>, var: &Var) -> (r: Result<Vec<u8>, FalcoError>)
    requires
        var.wf(),
    ensures
        r matches Ok(out) ==> out@ == input@,
        !var.spec_encrypted() ==> r is Ok,
        r is Err <==> (var.spec_encrypted() && spec_compressed(
            spec_selected_alg(*var, input@.len() as usize),
            input@,
        ).len() > MAX_SEAL_INPUT),
        r is Err ==> r == Result::<Vec<u8>, FalcoError>::Err(FalcoError::InvalidConfiguration),
{
    let ghost input0 = input@;
    let input_len = input.len();
    match pipeline_send(input, var) {
        Ok((tag, body)) => {
            proof {
                let nonce = choose|nonce: Seq<u8>|
                    nonce.len() == NONCE_LEN && body@ == #[trigger] spec_wire_body(
                        *var,
                        nonce,
                        input0,
                    );
                let alg = spec_selected_alg(*var, input0.len() as usize);
                assert(body@ == spec_enc_body(*var, nonce, spec_compressed(alg, input0)));
                assert(input0.len() <= usize::MAX);
            }
            match pipeline_receive(tag, body, var) {
                Ok(out) => Ok(out),
                Err(e) => Err(e),
            }
        },
        Err(e) => Err(e),
    }
}

} // verus!
