use vsl::digest::sha256;
use vsl::error::Error;
use vsl::format::{chunk, header};

#[test]
fn vsl_chunk_round_trips_payload() {
    let payload = b"hello from VSL";
    let digest = sha256(payload);
    let encoded = chunk::encode(payload, digest);
    let decoded = chunk::decode(&encoded).unwrap();
    assert_eq!(decoded, payload);
}

#[test]
fn vsl_rejects_invalid_digest() {
    let payload = b"hello from VSL";
    let mut encoded = chunk::encode(payload, sha256(payload));
    encoded[header::HEADER_LEN + 1] ^= 0xFF;
    let err = chunk::decode(&encoded).unwrap_err();
    assert!(matches!(err, vsl::error::Error::PayloadDigest));
}

#[test]
fn sha256_of_abc_matches_the_standard_vector() {
    let digest = sha256(b"abc");
    let expected: [u8; 32] = [
        0xba, 0x78, 0x16, 0xbf, 0x8f, 0x01, 0xcf, 0xea, 0x41, 0x41, 0x40, 0xde, 0x5d, 0xae, 0x22,
        0x23, 0xb0, 0x03, 0x61, 0xa3, 0x96, 0x17, 0x7a, 0x9c, 0xb4, 0x10, 0xff, 0x61, 0xf2, 0x00,
        0x15, 0xad,
    ];
    assert_eq!(digest, expected);
}

#[test]
fn header_encode_writes_every_field_big_endian() {
    let mut digest = [0u8; 32];
    digest[0] = 0xAA;
    digest[31] = 0xBB;
    let bytes = header::encode(0x0102_0304_0506_0708, digest);
    assert_eq!(bytes.len(), header::HEADER_LEN);
    assert_eq!(&bytes[0..4], &vsl::MAGIC);
    assert_eq!(&bytes[4..6], &[0, 1]);
    assert_eq!(&bytes[6..8], &[0, 0]);
    assert_eq!(&bytes[8..16], &[1, 2, 3, 4, 5, 6, 7, 8]);
    assert_eq!(&bytes[16..48], &digest);
}

#[test]
fn header_decode_reads_back_what_encode_wrote() {
    let digest = [7u8; 32];
    let bytes = header::encode(42, digest);
    let (version, len, read) = header::decode(&bytes).unwrap();
    assert_eq!(version, vsl::format::version::CURRENT);
    assert_eq!(len, 42);
    assert_eq!(read, digest);
}

#[test]
fn header_decode_rejects_short_input() {
    let bytes = header::encode(0, [0u8; 32]);
    let err = header::decode(&bytes[..47]).unwrap_err();
    assert!(matches!(err, Error::HeaderTooShort));
}

#[test]
fn header_decode_rejects_bad_magic() {
    let mut bytes = header::encode(0, [0u8; 32]);
    bytes[0] ^= 1;
    assert!(matches!(header::decode(&bytes).unwrap_err(), Error::InvalidMagic));
}

#[test]
fn header_decode_rejects_flags() {
    let mut bytes = header::encode(0, [0u8; 32]);
    bytes[7] = 1;
    match header::decode(&bytes).unwrap_err() {
        Error::MalformedVessel(m) => assert_eq!(m, "unsupported flags are set"),
        other => panic!("unexpected error {:?}", other),
    }
}

#[test]
fn header_decode_flags_are_checked_before_the_version() {
    let mut bytes = header::encode(0, [0u8; 32]);
    bytes[5] = 9;
    bytes[6] = 1;
    assert!(matches!(header::decode(&bytes).unwrap_err(), Error::MalformedVessel(_)));
}

#[test]
fn header_decode_rejects_other_versions() {
    let mut bytes = header::encode(0, [0u8; 32]);
    bytes[4] = 1;
    bytes[5] = 2;
    assert!(matches!(header::decode(&bytes).unwrap_err(), Error::UnsupportedVersion(258)));
}

#[test]
fn chunk_encode_is_header_then_payload() {
    let payload = b"xyz";
    let digest = [3u8; 32];
    let bytes = chunk::encode(payload, digest);
    assert_eq!(&bytes[..header::HEADER_LEN], header::encode(3, digest).as_slice());
    assert_eq!(&bytes[header::HEADER_LEN..], payload);
}

#[test]
fn chunk_decode_rejects_a_wrong_declared_length() {
    let payload = b"abcd";
    let mut bytes = chunk::encode(payload, sha256(payload));
    bytes.push(0);
    match chunk::decode(&bytes).unwrap_err() {
        Error::PayloadLength { declared, available } => {
            assert_eq!(declared, 4);
            assert_eq!(available, 5);
        }
        other => panic!("unexpected error {:?}", other),
    }
}

#[test]
fn chunk_decode_accepts_an_empty_payload() {
    let payload: &[u8] = b"";
    let bytes = chunk::encode(payload, sha256(payload));
    assert_eq!(bytes.len(), header::HEADER_LEN);
    assert_eq!(chunk::decode(&bytes).unwrap(), payload);
}

#[test]
fn chunk_decode_rejects_a_digest_that_is_not_the_payloads() {
    let payload = b"abcd";
    let bytes = chunk::encode(payload, [0u8; 32]);
    assert!(matches!(chunk::decode(&bytes).unwrap_err(), Error::PayloadDigest));
}

#[test]
fn chunk_frame_returns_payload_and_declared_digest() {
    let payload = b"abcd";
    let bytes = chunk::encode(payload, [9u8; 32]);
    let (p, d) = chunk::frame(&bytes).unwrap();
    assert_eq!(p, payload);
    assert_eq!(d, [9u8; 32]);
}

#[test]
fn verify_digest_compares_declared_and_actual() {
    let payload = b"abcd";
    assert_eq!(chunk::verify_digest(payload, [1u8; 32], [1u8; 32]).unwrap(), payload);
    assert!(matches!(
        chunk::verify_digest(payload, [1u8; 32], [2u8; 32]).unwrap_err(),
        Error::PayloadDigest
    ));
}

#[test]
fn chunk_decode_reports_header_errors() {
    assert!(matches!(chunk::decode(b"short").unwrap_err(), Error::HeaderTooShort));
}

#[test]
fn constants_hold_their_values() {
    assert_eq!(vsl::PNG_SIGNATURE, [137, 80, 78, 71, 13, 10, 26, 10]);
    assert_eq!(&vsl::VSL_TYPE, b"veSL");
    assert_eq!(vsl::MAGIC.len(), 4);
    assert_eq!(header::HEADER_LEN, 48);
}
