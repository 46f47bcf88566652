use falcotcp::enums::CompressionAlgorithm;
use falcotcp::errors::FalcoError;
use falcotcp::falco_pipeline::pipeline_receive;
use falcotcp::falco_pipeline::pipeline_round_trip;
use falcotcp::falco_pipeline::pipeline_send;
use falcotcp::falco_pipeline::CompressionChoice;
use falcotcp::falco_pipeline::Var;
use falcotcp::heuristics::AlgorithmSet;
use falcotcp::heuristics::HeuristicPolicy;
use aes_gcm::aead::rand_core::RngCore;
use std::hash::DefaultHasher;
use std::hash::Hasher;

fn encrypted_var(key: [u8; 32], choice: CompressionChoice) -> Var {
    Var::new(Some(key.to_vec()), choice).unwrap()
}

fn plain_var(choice: CompressionChoice) -> Var {
    Var::new(None, choice).unwrap()
}

fn random_bytes(n: usize) -> Vec<u8> {
    let mut buf = vec![0u8; n];
    let mut rng = aes_gcm::aead::OsRng;
    rng.fill_bytes(&mut buf);
    buf
}

#[test]
fn falco_pipeline_run() {
    let mut key = [0u8; 32];
    {
        let mut rng = aes_gcm::aead::OsRng;
        rng.fill_bytes(&mut key);
    }
    let var = encrypted_var(
        key,
        CompressionChoice::Heuristic(
            HeuristicPolicy::Balanced,
            AlgorithmSet { lzma: true, gzip: true, zstd: true, lz4: true },
        ),
    );
    let bts = random_bytes(16);
    println!("input: {:?}", bts);
    let (alg, body) = pipeline_send(bts.clone(), &var).unwrap();
    println!("algorithm: {}", alg);
    let result = pipeline_receive(alg, body, &var).unwrap();
    println!("output: {:?}", result);
    assert!(bts == result);
}

#[test]
fn round_trip_every_algorithm_plaintext() {
    let input: Vec<u8> = (0u16..1000).map(|i| (i % 251) as u8).collect();
    for alg in [
        CompressionAlgorithm::Plain,
        CompressionAlgorithm::Lzma,
        CompressionAlgorithm::Gzip,
        CompressionAlgorithm::Zstd,
        CompressionAlgorithm::Lz4,
    ] {
        let var = plain_var(CompressionChoice::Fixed(alg));
        let (tag, body) = pipeline_send(input.clone(), &var).unwrap();
        assert_eq!(tag, alg.u8());
        let out = pipeline_receive(tag, body, &var).unwrap();
        assert_eq!(out, input);
    }
}

#[test]
fn round_trip_every_algorithm_encrypted() {
    let input: Vec<u8> = (0u16..1000).map(|i| (i * 7 % 256) as u8).collect();
    for alg in [
        CompressionAlgorithm::Plain,
        CompressionAlgorithm::Lzma,
        CompressionAlgorithm::Gzip,
        CompressionAlgorithm::Zstd,
        CompressionAlgorithm::Lz4,
    ] {
        let var = encrypted_var([7u8; 32], CompressionChoice::Fixed(alg));
        let (tag, body) = pipeline_send(input.clone(), &var).unwrap();
        let out = pipeline_receive(tag, body, &var).unwrap();
        assert_eq!(out, input);
    }
}

#[test]
fn round_trip_exec_law() {
    let var = encrypted_var([1u8; 32], CompressionChoice::Fixed(CompressionAlgorithm::Zstd));
    let input = random_bytes(5000);
    let out = pipeline_round_trip(input.clone(), &var).unwrap();
    assert_eq!(out, input);
}

#[test]
fn empty_body_round_trips() {
    let var = plain_var(CompressionChoice::Fixed(CompressionAlgorithm::Plain));
    let (tag, body) = pipeline_send(Vec::new(), &var).unwrap();
    assert_eq!(tag, 0);
    assert_eq!(body.len(), 0);
    let out = pipeline_receive(tag, body, &var).unwrap();
    assert!(out.is_empty());

    let enc = encrypted_var([9u8; 32], CompressionChoice::Fixed(CompressionAlgorithm::Lz4));
    let (tag, body) = pipeline_send(Vec::new(), &enc).unwrap();
    let out = pipeline_receive(tag, body, &enc).unwrap();
    assert!(out.is_empty());
}

#[test]
fn compression_changes_the_bytes() {
    let input = vec![0u8; 4096];
    let var = plain_var(CompressionChoice::Fixed(CompressionAlgorithm::Gzip));
    let (tag, body) = pipeline_send(input.clone(), &var).unwrap();
    assert_eq!(tag, 2);
    assert_ne!(body, input);
    assert!(body.len() < input.len());
    let var = plain_var(CompressionChoice::Fixed(CompressionAlgorithm::Lz4));
    let (tag, body) = pipeline_send(input.clone(), &var).unwrap();
    assert_eq!(tag, 3);
    // the 8-byte big-endian original size leads the LZ4 block
    assert_eq!(&body[..8], &[0, 0, 0, 0, 0, 0, 0x10, 0]);
}

#[test]
fn nonces_differ_between_sends() {
    let var = encrypted_var([3u8; 32], CompressionChoice::Fixed(CompressionAlgorithm::Plain));
    let input = vec![0xABu8; 64];
    let (_, body1) = pipeline_send(input.clone(), &var).unwrap();
    let (_, body2) = pipeline_send(input, &var).unwrap();
    assert_ne!(&body1[..12], &body2[..12]);
}

#[test]
fn tampered_ciphertext_fails_authentication() {
    let var = encrypted_var([5u8; 32], CompressionChoice::Fixed(CompressionAlgorithm::Plain));
    let (tag, mut body) = pipeline_send(vec![1, 2, 3, 4, 5], &var).unwrap();
    body[14] ^= 0x01;
    let err = pipeline_receive(tag, body, &var).unwrap_err();
    assert_eq!(err, FalcoError::AuthenticationFailed);
}

#[test]
fn short_encrypted_body_is_invalid_data() {
    let var = encrypted_var([5u8; 32], CompressionChoice::Fixed(CompressionAlgorithm::Plain));
    let err = pipeline_receive(0, vec![0u8; 27], &var).unwrap_err();
    assert_eq!(err, FalcoError::InvalidData);
}

#[test]
fn garbage_compressed_body_fails_decompression() {
    let var = plain_var(CompressionChoice::Fixed(CompressionAlgorithm::Gzip));
    let err = pipeline_receive(2, vec![0u8; 40], &var).unwrap_err();
    assert_eq!(err, FalcoError::DecompressionFailed);
    // an LZ4 body too short for its size prefix
    let var = plain_var(CompressionChoice::Fixed(CompressionAlgorithm::Lz4));
    let err = pipeline_receive(3, vec![1, 2, 3], &var).unwrap_err();
    assert_eq!(err, FalcoError::DecompressionFailed);
}

#[test]
fn unknown_tag_passes_through() {
    let var = plain_var(CompressionChoice::Fixed(CompressionAlgorithm::Plain));
    let out = pipeline_receive(200, vec![9, 8, 7], &var).unwrap();
    assert_eq!(out, vec![9, 8, 7]);
}

#[test]
fn short_key_is_invalid_configuration() {
    match Var::new(Some(vec![0u8; 16]), CompressionChoice::Fixed(CompressionAlgorithm::Plain)) {
        Ok(_) => panic!("a 16-byte key must be refused"),
        Err(err) => assert_eq!(err, FalcoError::InvalidConfiguration),
    }
}

#[test]
fn hash_round_trip_lz4_aead() {
    // client and server share a pipeline over LZ4 with an all-zero key
    let var = encrypted_var([0u8; 32], CompressionChoice::Fixed(CompressionAlgorithm::Lz4));
    let request = vec![0x01u8; 1000];

    // client side: send the request through the pipeline
    let (tag, wire) = pipeline_send(request.clone(), &var).unwrap();

    // server side: recover the plaintext, answer with its 8-byte hash
    let plain = pipeline_receive(tag, wire, &var).unwrap();
    assert_eq!(plain, request);
    let mut hasher = DefaultHasher::new();
    hasher.write(&plain);
    let digest = hasher.finish().to_be_bytes().to_vec();
    let (rtag, rwire) = pipeline_send(digest, &var).unwrap();

    // client side: recover the response and check it against its own hash
    let response = pipeline_receive(rtag, rwire, &var).unwrap();
    assert_eq!(response.len(), 8);
    let mut own = DefaultHasher::new();
    own.write(&request);
    assert_eq!(response, own.finish().to_be_bytes().to_vec());
}
