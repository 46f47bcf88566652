//! The frame codec: the 9-byte header and the body behind it.
//!
//! A frame is `size (u64, little-endian)` then `compression (u8)` then
//! exactly `size` body bytes.  `size == 0` is a legal frame with an empty
//! body.  This module also holds the big-endian `u64` codec the pipeline
//! uses for the LZ4 original-size prefix.

use vstd::prelude::*;

use crate::MessageHeaders;
use crate::errors::FalcoError;

verus! {

/// The big-endian bytes of a `u64`, most significant first.
pub open spec fn spec_u64_to_be_bytes(x: u64) -> Seq<u8> {
    seq![
        (x >> 56) as u8,
        (x >> 48) as u8,
        (x >> 40) as u8,
        (x >> 32) as u8,
        (x >> 24) as u8,
        (x >> 16) as u8,
        (x >> 8) as u8,
        x as u8,
    ]
}

/// The `u64` read from eight big-endian bytes.
pub open spec fn spec_u64_from_be_bytes(s: Seq<u8>) -> u64
    recommends
        s.len() == 8,
{
    (((s[0] as u64) << 56) | ((s[1] as u64) << 48) | ((s[2] as u64) << 40) | ((s[3] as u64) << 32)
        | ((s[4] as u64) << 24) | ((s[5] as u64) << 16) | ((s[6] as u64) << 8) | (s[7] as u64))
}

/// Reading back the big-endian bytes of `x` yields `x`, and the encoding
/// is always eight bytes long.
pub proof fn lemma_u64_be_bytes_round_trip(x: u64)
    ensures
        spec_u64_to_be_bytes(x).len() == 8,
        spec_u64_from_be_bytes(spec_u64_to_be_bytes(x)) == x,
{
    assert((((((x >> 56) as u8) as u64) << 56) | ((((x >> 48) as u8) as u64) << 48) | ((((x >> 40)
        as u8) as u64) << 40) | ((((x >> 32) as u8) as u64) << 32) | ((((x >> 24) as u8) as u64)
        << 24) | ((((x >> 16) as u8) as u64) << 16) | ((((x >> 8) as u8) as u64) << 8) | ((x as u8)
        as u64)) == x) by (bit_vector);
}

/// Write `x` as eight big-endian bytes.
pub fn u64_to_be_bytes(x: u64) -> (r: Vec<u8>)
    ensures
        r@ == spec_u64_to_be_bytes(x),
        r@.len() == 8,
{
    let mut r: Vec<u8> = Vec::new();
    r.push(#[verifier::truncate] ((x >> 56) as u8));
    r.push(#[verifier::truncate] ((x >> 48) as u8));
    r.push(#[verifier::truncate] ((x >> 40) as u8));
    r.push(#[verifier::truncate] ((x >> 32) as u8));
    r.push(#[verifier::truncate] ((x >> 24) as u8));
    r.push(#[verifier::truncate] ((x >> 16) as u8));
    r.push(#[verifier::truncate] ((x >> 8) as u8));
    r.push(#[verifier::truncate] (x as u8));
    proof {
        assert(r@ =~= spec_u64_to_be_bytes(x));
    }
    r
}

/// Read a `u64` from eight big-endian bytes.
pub fn u64_from_be_bytes(s: &[u8]) -> (r: u64)
    requires
        s@.len() == 8,
    ensures
        r == spec_u64_from_be_bytes(s@),
{
    (((s[0] as u64) << 56) | ((s[1] as u64) << 48) | ((s[2] as u64) << 40) | ((s[3] as u64) << 32)
        | ((s[4] as u64) << 24) | ((s[5] as u64) << 16) | ((s[6] as u64) << 8) | (s[7] as u64))
}

/// The nine header bytes of a frame: the little-endian size then the
/// compression tag.
pub open spec fn spec_header_bytes(h: MessageHeaders) -> Seq<u8> {
    vstd::bytes::spec_u64_to_le_bytes(h.size).push(h.compr_alg)
}

/// Encode a header into its nine wire bytes.
pub fn encode_headers(h: &MessageHeaders) -> (r: Vec<u8>)
    ensures
        r@ == spec_header_bytes(*h),
        r@.len() == 9,
{
    proof {
        vstd::bytes::lemma_auto_spec_u64_to_from_le_bytes();
    }
    let mut r = vstd::bytes::u64_to_le_bytes(h.size);
    r.push(h.compr_alg);
    r
}

/// The header nine wire bytes decode to.
pub open spec fn spec_decoded_headers(b: Seq<u8>) -> MessageHeaders
    recommends
        b.len() == 9,
{
    MessageHeaders {
        size: vstd::bytes::spec_u64_from_le_bytes(b.subrange(0, 8)),
        compr_alg: b[8],
    }
}

/// Decode nine wire bytes into a header.  Re-encoding the result gives
/// the same nine bytes back.
pub fn decode_headers(b: &[u8]) -> (h: MessageHeaders)
    requires
        b@.len() == 9,
    ensures
        h == spec_decoded_headers(b@),
        spec_header_bytes(h) == b@,
        h.size == vstd::bytes::spec_u64_from_le_bytes(b@.subrange(0, 8)),
        h.compr_alg == b@[8],
{
    proof {
        vstd::bytes::lemma_auto_spec_u64_to_from_le_bytes();
    }
    let size = vstd::bytes::u64_from_le_bytes(vstd::slice::slice_subrange(b, 0, 8));
    let h = MessageHeaders { size, compr_alg: *vstd::slice::slice_index_get(b, 8) };
    proof {
        assert(spec_header_bytes(h) =~= b@);
    }
    h
}

/// A whole frame: the header for `body` (with the given compression tag)
/// followed by `body` itself.
pub open spec fn spec_frame_bytes(compr_alg: u8, body: Seq<u8>) -> Seq<u8> {
    spec_header_bytes(MessageHeaders { size: body.len() as u64, compr_alg }) + body
}

/// Encode a body and its compression tag into one frame.
pub fn encode_frame(compr_alg: u8, body: &Vec<u8>) -> (r: Vec<u8>)
    ensures
        r@ == spec_frame_bytes(compr_alg, body@),
        r@.len() == 9 + body@.len(),
{
    let h = MessageHeaders { size: body.len() as u64, compr_alg };
    let mut r = encode_headers(&h);
    let mut rest = body.clone();
    r.append(&mut rest);
    r
}

/// Decode one frame from `buf`: the nine header bytes, then exactly
/// `size` body bytes.  Fails with `ShortRead` when `buf` holds fewer
/// bytes than the header promises; bytes past the frame are ignored.
pub fn decode_frame(buf: &[u8]) -> (r: Result<(MessageHeaders, Vec<u8>), FalcoError>)
    ensures
        r matches Ok((h, body)) ==> {
            &&& buf@.len() >= 9
            &&& spec_header_bytes(h) == buf@.subrange(0, 9)
            &&& body@ == buf@.subrange(9, 9 + h.size as int)
            &&& body@.len() == h.size
        },
        r is Err ==> r == Result::<(MessageHeaders, Vec<u8>), FalcoError>::Err(
            FalcoError::ShortRead,
        ),
        r is Err <==> (buf@.len() < 9 || buf@.len() < 9 + vstd::bytes::spec_u64_from_le_bytes(
            buf@.subrange(0, 8),
        )),
{
    if buf.len() < 9 {
        return Err(FalcoError::ShortRead);
    }
    let h = decode_headers(vstd::slice::slice_subrange(buf, 0, 9));
    proof {
        assert(buf@.subrange(0, 9).subrange(0, 8) =~= buf@.subrange(0, 8));
    }
    if h.size > (usize::MAX - 9) as u64 || (buf.len() as u64) < 9 + h.size {
        return Err(FalcoError::ShortRead);
    }
    let body = vstd::slice::slice_to_vec(
        vstd::slice::slice_subrange(buf, 9, 9 + h.size as usize),
    );
    Ok((h, body))
}

/// Decoding a frame built by `encode_frame` gives back the tag and the
/// body that went in.
pub proof fn lemma_frame_round_trip(compr_alg: u8, body: Seq<u8>)
    requires
        body.len() <= u64::MAX,
    ensures
        spec_frame_bytes(compr_alg, body).len() == 9 + body.len(),
        spec_frame_bytes(compr_alg, body).subrange(0, 9) == spec_header_bytes(
            MessageHeaders { size: body.len() as u64, compr_alg },
        ),
        spec_frame_bytes(compr_alg, body).subrange(9, 9 + body.len() as int) == body,
{
    vstd::bytes::lemma_auto_spec_u64_to_from_le_bytes();
    let h = MessageHeaders { size: body.len() as u64, compr_alg };
    assert(spec_frame_bytes(compr_alg, body).subrange(0, 9) =~= spec_header_bytes(h));
    assert(spec_frame_bytes(compr_alg, body).subrange(9, 9 + body.len() as int) =~= body);
}

} // verus!
