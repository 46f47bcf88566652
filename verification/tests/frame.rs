use falcotcp::errors::FalcoError;
use falcotcp::frame::decode_frame;
use falcotcp::frame::decode_headers;
use falcotcp::frame::encode_frame;
use falcotcp::frame::encode_headers;
use falcotcp::frame::u64_from_be_bytes;
use falcotcp::frame::u64_to_be_bytes;
use falcotcp::MessageHeaders;

#[test]
fn header_encodes_little_endian_size_then_tag() {
    let h = MessageHeaders { size: 0x0102030405060708, compr_alg: 3 };
    let bytes = encode_headers(&h);
    assert_eq!(bytes, vec![0x08, 0x07, 0x06, 0x05, 0x04, 0x03, 0x02, 0x01, 3]);
}

#[test]
fn header_decode_inverts_encode() {
    let h = MessageHeaders { size: 9000, compr_alg: 4 };
    let bytes = encode_headers(&h);
    let back = decode_headers(&bytes);
    assert_eq!(back.size, 9000);
    assert_eq!(back.compr_alg, 4);
}

#[test]
fn frame_round_trips() {
    let body = vec![0xDE, 0xAD, 0xBE, 0xEF];
    let frame = encode_frame(7, &body);
    assert_eq!(frame.len(), 13);
    let (h, out) = decode_frame(&frame).unwrap();
    assert_eq!(h.size, 4);
    assert_eq!(h.compr_alg, 7);
    assert_eq!(out, body);
}

#[test]
fn empty_frame_is_legal() {
    let frame = encode_frame(0, &Vec::new());
    assert_eq!(frame.len(), 9);
    let (h, out) = decode_frame(&frame).unwrap();
    assert_eq!(h.size, 0);
    assert!(out.is_empty());
}

#[test]
fn truncated_frame_is_a_short_read() {
    let frame = encode_frame(1, &vec![1, 2, 3, 4, 5]);
    let err = decode_frame(&frame[..frame.len() - 1]).unwrap_err();
    assert_eq!(err, FalcoError::ShortRead);
    let err = decode_frame(&frame[..5]).unwrap_err();
    assert_eq!(err, FalcoError::ShortRead);
}

#[test]
fn big_endian_u64_round_trips() {
    let bytes = u64_to_be_bytes(0x0102030405060708);
    assert_eq!(bytes, vec![1, 2, 3, 4, 5, 6, 7, 8]);
    assert_eq!(u64_from_be_bytes(&bytes), 0x0102030405060708);
    assert_eq!(u64_to_be_bytes(0), vec![0; 8]);
    assert_eq!(u64_from_be_bytes(&u64_to_be_bytes(u64::MAX)), u64::MAX);
}
