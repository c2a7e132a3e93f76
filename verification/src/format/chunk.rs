//! A whole envelope: header and payload.
use vstd::prelude::*;

use crate::digest::{sha256, sha256_digest};
use crate::error::{Error, ErrorModel};
use crate::format::header::{self, header_bytes, parsed_header, HEADER_LEN};
use crate::format::MAGIC;
use crate::wire::{be_value, bytes_eq, lemma_be_value_bound, lemma_pow256_values, push_bytes};

verus! {

/// The envelope of `payload` under `digest`: its header, then the payload.
pub open spec fn chunk_bytes(payload: Seq<u8>, digest: Seq<u8>) -> Seq<u8> {
    header_bytes(payload.len() as u64, digest) + payload
}

/// The payload that `data` frames together with the digest its header
/// declares, once the header and the declared length have been checked.
pub open spec fn framed_payload(data: Seq<u8>) -> Result<(Seq<u8>, Seq<u8>), ErrorModel> {
    match parsed_header(data) {
        Err(e) => Err(e),
        Ok((_, declared, digest)) => {
            let available = data.len() - HEADER_LEN;
            if declared > usize::MAX || declared != available {
                Err(ErrorModel::PayloadLength { declared, available: available as usize })
            } else {
                Ok((data.subrange(HEADER_LEN as int, data.len() as int), digest))
            }
        },
    }
}

/// The payload accepted from `data`: framed correctly and carrying the
/// SHA-256 digest that its header declares.
pub open spec fn decoded_payload(data: Seq<u8>) -> Result<Seq<u8>, ErrorModel> {
    match framed_payload(data) {
        Err(e) => Err(e),
        Ok((payload, declared)) => if sha256_digest(payload) == declared {
            Ok(payload)
        } else {
            Err(ErrorModel::PayloadDigest)
        },
    }
}

/// Writes the envelope of `payload` under `digest`.
pub fn encode(payload: &[u8], digest: [u8; 32]) -> (data: Vec<u8>)
    ensures
        data@ == chunk_bytes(payload@, digest@),
{
    let mut data = header::encode(payload.len() as u64, digest);
    push_bytes(&mut data, payload);
    data
}

/// Checks the header and the declared length of the envelope `data`, and
/// returns its payload with the digest that the header declares.
pub fn frame(data: &[u8]) -> (r: Result<(&[u8], [u8; 32]), Error>)
    ensures
        match r {
            Ok((payload, digest)) => framed_payload(data@) == Ok::<
                (Seq<u8>, Seq<u8>),
                ErrorModel,
            >((payload@, digest@)),
            Err(e) => framed_payload(data@) == Err::<(Seq<u8>, Seq<u8>), ErrorModel>(e@),
        },
{
    let (_, declared, digest) = match header::decode(data) {
        Ok(h) => h,
        Err(e) => return Err(e),
    };
    let available = data.len() - HEADER_LEN;
    if declared > usize::MAX as u64 {
        return Err(Error::PayloadLength { declared, available });
    }
    let expected = declared as usize;
    if expected != available {
        return Err(Error::PayloadLength { declared, available });
    }
    let payload = &data[HEADER_LEN..data.len()];
    Ok((payload, digest))
}

/// Accepts `payload` when the digest computed over it, `actual`, equals
/// the digest its header declared; otherwise reports a digest mismatch.
pub fn verify_digest<'a>(payload: &'a [u8], declared: [u8; 32], actual: [u8; 32]) -> (r: Result<&'a [u8], Error>)
    ensures
        declared@ == actual@ ==> (r matches Ok(p) && p@ == payload@),
        declared@ != actual@ ==> (r matches Err(e) && e@ == ErrorModel::PayloadDigest),
{
    if bytes_eq(actual.as_slice(), declared.as_slice()) {
        Ok(payload)
    } else {
        Err(Error::PayloadDigest)
    }
}

/// Reads the envelope `data` and returns its payload, after checking the
/// header, the declared length and the SHA-256 digest.
pub fn decode(data: &[u8]) -> (r: Result<&[u8], Error>)
    ensures
        match r {
            Ok(payload) => decoded_payload(data@) == Ok::<Seq<u8>, ErrorModel>(payload@),
            Err(e) => decoded_payload(data@) == Err::<Seq<u8>, ErrorModel>(e@),
        },
{
    let (payload, declared) = match frame(data) {
        Ok(f) => f,
        Err(e) => return Err(e),
    };
    let actual = sha256(payload);
    verify_digest(payload, declared, actual)
}

/// Decoding the envelope written for a payload under a 32-byte digest
/// gives back the payload exactly when the digest is the payload's SHA-256
/// digest, and otherwise reports a digest mismatch.
pub proof fn lemma_decode_encode(payload: Seq<u8>, digest: Seq<u8>)
    requires
        digest.len() == 32,
        payload.len() + HEADER_LEN <= usize::MAX,
    ensures
        decoded_payload(chunk_bytes(payload, digest)) == if sha256_digest(payload) == digest {
            Ok::<Seq<u8>, ErrorModel>(payload)
        } else {
            Err::<Seq<u8>, ErrorModel>(ErrorModel::PayloadDigest)
        },
{
    header::lemma_decode_encode(payload.len() as u64, digest, payload);
    let data = chunk_bytes(payload, digest);
    assert(data.subrange(HEADER_LEN as int, data.len() as int) =~= payload);
}

/// An envelope is the header for the payload's length and the digest,
/// then the payload itself, unchanged.
pub proof fn lemma_chunk_layout(payload: Seq<u8>, digest: Seq<u8>)
    requires
        digest.len() == 32,
    ensures
        chunk_bytes(payload, digest).len() == HEADER_LEN + payload.len(),
        chunk_bytes(payload, digest).subrange(0, HEADER_LEN as int) == header_bytes(
            payload.len() as u64,
            digest,
        ),
        chunk_bytes(payload, digest).subrange(
            HEADER_LEN as int,
            chunk_bytes(payload, digest).len() as int,
        ) == payload,
{
    header::lemma_header_layout(payload.len() as u64, digest);
    let data = chunk_bytes(payload, digest);
    assert(data.subrange(0, HEADER_LEN as int) =~= header_bytes(payload.len() as u64, digest));
    assert(data.subrange(HEADER_LEN as int, data.len() as int) =~= payload);
}

/// An envelope is accepted exactly when its header is well formed (at
/// least 48 bytes, the magic, then 0, 1, 0, 0), the big-endian number in
/// bytes 8 to 15 is the number of bytes after the header, and bytes 16 to
/// 47 are the SHA-256 digest of those bytes. What is accepted is the bytes
/// after the header, unchanged.
pub proof fn lemma_decoded_payload_fields(data: Seq<u8>)
    requires
        data.len() <= usize::MAX,
    ensures
        decoded_payload(data) is Ok <==> {
            &&& data.len() >= 48
            &&& data.subrange(0, 4) == MAGIC@
            &&& data[4] == 0 && data[5] == 1 && data[6] == 0 && data[7] == 0
            &&& be_value(data.subrange(8, 16)) == data.len() - 48
            &&& sha256_digest(data.subrange(48, data.len() as int)) == data.subrange(16, 48)
        },
        decoded_payload(data) is Ok ==> decoded_payload(data)->Ok_0 == data.subrange(
            48,
            data.len() as int,
        ),
        framed_payload(data) is Ok <==> {
            &&& data.len() >= 48
            &&& data.subrange(0, 4) == MAGIC@
            &&& data[4] == 0 && data[5] == 1 && data[6] == 0 && data[7] == 0
            &&& be_value(data.subrange(8, 16)) == data.len() - 48
        },
        framed_payload(data) is Ok ==> framed_payload(data)->Ok_0 == (
            data.subrange(48, data.len() as int),
            data.subrange(16, 48),
        ),
{
    header::lemma_parsed_header_fields(data);
    if data.len() >= 48 {
        lemma_pow256_values();
        lemma_be_value_bound(data.subrange(8, 16));
    }
}

} // verus!
