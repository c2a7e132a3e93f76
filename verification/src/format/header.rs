//! The fixed-size envelope header.
use vstd::prelude::*;

use crate::error::{malformed_vessel, Error, ErrorModel};
use crate::format::version::CURRENT;
use crate::format::MAGIC;
use crate::wire::{
    be_bytes, be_value, bytes_eq, lemma_be_bytes_index, lemma_be_bytes_len, lemma_be_roundtrip,
    lemma_be_value_bound, lemma_pow256_values, pow256, push_be, push_bytes, read_be,
};

verus! {

/// Bytes in a header: magic, version, flags, payload length, digest.
pub const HEADER_LEN: usize = 48;

/// The header written for a payload of `payload_len` bytes with `digest`.
pub open spec fn header_bytes(payload_len: u64, digest: Seq<u8>) -> Seq<u8> {
    MAGIC@ + be_bytes(CURRENT as nat, 2) + be_bytes(0, 2) + be_bytes(payload_len as nat, 8)
        + digest
}

/// What reading a header from the front of `data` gives: the version, the
/// declared payload length and the digest, or the first check that failed.
pub open spec fn parsed_header(data: Seq<u8>) -> Result<(u16, u64, Seq<u8>), ErrorModel> {
    if data.len() < HEADER_LEN {
        Err(ErrorModel::HeaderTooShort)
    } else if data.subrange(0, 4) != MAGIC@ {
        Err(ErrorModel::InvalidMagic)
    } else if be_value(data.subrange(6, 8)) != 0 {
        Err(ErrorModel::MalformedVessel("unsupported flags are set"@))
    } else if be_value(data.subrange(4, 6)) != CURRENT {
        Err(ErrorModel::UnsupportedVersion(be_value(data.subrange(4, 6)) as u16))
    } else {
        Ok((CURRENT, be_value(data.subrange(8, 16)) as u64, data.subrange(16, 48)))
    }
}

/// Writes the header for a payload of `payload_len` bytes with `digest`.
pub fn encode(payload_len: u64, digest: [u8; 32]) -> (header: Vec<u8>)
    ensures
        header@ == header_bytes(payload_len, digest@),
        header@.len() == HEADER_LEN,
{
    let mut header: Vec<u8> = Vec::with_capacity(HEADER_LEN);
    push_bytes(&mut header, MAGIC.as_slice());
    push_be(&mut header, CURRENT as u64, 2);
    push_be(&mut header, 0, 2);
    push_be(&mut header, payload_len, 8);
    push_bytes(&mut header, digest.as_slice());
    proof {
        lemma_be_bytes_len(CURRENT as nat, 2);
        lemma_be_bytes_len(0, 2);
        lemma_be_bytes_len(payload_len as nat, 8);
    }
    header
}

/// Reads the header at the front of `data`.
pub fn decode(data: &[u8]) -> (r: Result<(u16, u64, [u8; 32]), Error>)
    ensures
        match r {
            Ok((version, payload_len, digest)) => parsed_header(data@) == Ok::<
                (u16, u64, Seq<u8>),
                ErrorModel,
            >((version, payload_len, digest@)),
            Err(e) => parsed_header(data@) == Err::<(u16, u64, Seq<u8>), ErrorModel>(e@),
        },
{
    if data.len() < HEADER_LEN {
        return Err(Error::HeaderTooShort);
    }
    if !bytes_eq(&data[0..4], MAGIC.as_slice()) {
        return Err(Error::InvalidMagic);
    }
    proof {
        lemma_pow256_values();
        lemma_be_value_bound(data@.subrange(4, 6));
        lemma_be_value_bound(data@.subrange(6, 8));
    }
    let version = read_be(&data[4..6]) as u16;
    let flags = read_be(&data[6..8]) as u16;
    if flags != 0 {
        return Err(malformed_vessel("unsupported flags are set"));
    }
    let payload_len = read_be(&data[8..16]);
    let mut digest: [u8; 32] = [0u8; 32];
    let mut i: usize = 0;
    while i < 32
        invariant
            i <= 32,
            data@.len() >= HEADER_LEN,
            forall|k: int| 0 <= k < i ==> digest@[k] == data@[16 + k],
        decreases 32 - i,
    {
        digest[i] = data[16 + i];
        i = i + 1;
    }
    assert(digest@ =~= data@.subrange(16, 48));
    if version != CURRENT {
        return Err(Error::UnsupportedVersion(version));
    }
    Ok((version, payload_len, digest))
}

/// Reading a header back from the bytes written for a payload length and a
/// 32-byte digest gives the current version, that length and that digest,
/// whatever bytes follow the header.
pub proof fn lemma_decode_encode(payload_len: u64, digest: Seq<u8>, rest: Seq<u8>)
    requires
        digest.len() == 32,
    ensures
        parsed_header(header_bytes(payload_len, digest) + rest) == Ok::<
            (u16, u64, Seq<u8>),
            ErrorModel,
        >((CURRENT, payload_len, digest)),
        header_bytes(payload_len, digest).len() == HEADER_LEN,
{
    lemma_pow256_values();
    lemma_be_roundtrip(CURRENT as nat, 2);
    lemma_be_roundtrip(0, 2);
    lemma_be_roundtrip(payload_len as nat, 8);
    let version = be_bytes(CURRENT as nat, 2);
    let flags = be_bytes(0, 2);
    let length = be_bytes(payload_len as nat, 8);
    let data = header_bytes(payload_len, digest) + rest;
    assert(MAGIC@.len() == 4);
    assert(data.subrange(0, 4) =~= MAGIC@);
    assert(data.subrange(4, 6) =~= version);
    assert(data.subrange(6, 8) =~= flags);
    assert(data.subrange(8, 16) =~= length);
    assert(data.subrange(16, 48) =~= digest);
}

/// The magic of an envelope header is the bytes `V`, `S`, `L` and zero.
pub proof fn lemma_magic_bytes()
    ensures
        MAGIC@ == seq![86u8, 83u8, 76u8, 0u8],
{
    assert(MAGIC@ =~= seq![86u8, 83u8, 76u8, 0u8]);
}

/// A big-endian number of two bytes.
proof fn lemma_two_byte_value(s: Seq<u8>)
    requires
        s.len() == 2,
    ensures
        be_value(s) == s[0] * 256 + s[1],
{
    let t = s.drop_last();
    assert(t.drop_last() =~= Seq::<u8>::empty());
    assert(t[0] == s[0]);
    assert(be_value(t.drop_last()) == 0);
    assert(be_value(t) == be_value(t.drop_last()) * 256 + t.last());
    assert(be_value(t) == s[0]);
    assert(be_value(s) == be_value(t) * 256 + s.last());
}

/// The header written for a payload of `payload_len` bytes under `digest`
/// holds, at fixed byte positions: the magic in bytes 0 to 3; version 1 as
/// the bytes 0, 1; zero flags as the bytes 0, 0; the payload length in
/// bytes 8 to 15, most significant first (byte `8 + k` is its base-256
/// digit worth `256^(7 - k)`); and the digest itself in bytes 16 to 47.
pub proof fn lemma_header_layout(payload_len: u64, digest: Seq<u8>)
    requires
        digest.len() == 32,
    ensures
        header_bytes(payload_len, digest).len() == 48,
        header_bytes(payload_len, digest).subrange(0, 4) == MAGIC@,
        header_bytes(payload_len, digest)[4] == 0,
        header_bytes(payload_len, digest)[5] == 1,
        header_bytes(payload_len, digest)[6] == 0,
        header_bytes(payload_len, digest)[7] == 0,
        forall|k: int|
            0 <= k < 8 ==> #[trigger] header_bytes(payload_len, digest)[8 + k] == (payload_len as nat
                / pow256((7 - k) as nat)) % 256,
        header_bytes(payload_len, digest).subrange(16, 48) == digest,
{
    let h = header_bytes(payload_len, digest);
    lemma_decode_encode(payload_len, digest, Seq::empty());
    assert(h + Seq::<u8>::empty() =~= h);
    lemma_pow256_values();
    lemma_be_bytes_index(CURRENT as nat, 2, 0);
    lemma_be_bytes_index(CURRENT as nat, 2, 1);
    lemma_be_bytes_index(0, 2, 0);
    lemma_be_bytes_index(0, 2, 1);
    assert(pow256(0) == 1) by {
        reveal_with_fuel(pow256, 1);
    }
    assert(MAGIC@.len() == 4);
    assert(h.subrange(0, 4) =~= MAGIC@);
    assert(h[4] == be_bytes(CURRENT as nat, 2)[0]);
    assert(h[5] == be_bytes(CURRENT as nat, 2)[1]);
    assert(h[6] == be_bytes(0, 2)[0]);
    assert(h[7] == be_bytes(0, 2)[1]);
    assert forall|k: int| 0 <= k < 8 implies #[trigger] h[8 + k] == (payload_len as nat / pow256(
        (7 - k) as nat,
    )) % 256 by {
        lemma_be_bytes_index(payload_len as nat, 8, k);
        assert(h[8 + k] == be_bytes(payload_len as nat, 8)[k]);
    }
    assert(h.subrange(16, 48) =~= digest);
}

/// A header reads successfully exactly when there are at least 48 bytes,
/// the first four are the magic and bytes 4 to 7 are 0, 1, 0, 0 (version 1,
/// no flags). It then gives version 1, the number whose big-endian digits
/// are bytes 8 to 15, and bytes 16 to 47 themselves as the digest. Fewer
/// than 48 bytes is a short header, and a wrong magic is reported as such.
pub proof fn lemma_parsed_header_fields(data: Seq<u8>)
    ensures
        parsed_header(data) is Ok <==> (data.len() >= 48 && data.subrange(0, 4) == MAGIC@ && data[4]
            == 0 && data[5] == 1 && data[6] == 0 && data[7] == 0),
        parsed_header(data) is Ok ==> parsed_header(data)->Ok_0 == (
            1u16,
            be_value(data.subrange(8, 16)) as u64,
            data.subrange(16, 48),
        ),
        data.len() < 48 ==> parsed_header(data) == Err::<(u16, u64, Seq<u8>), ErrorModel>(
            ErrorModel::HeaderTooShort,
        ),
        data.len() >= 48 && data.subrange(0, 4) != MAGIC@ ==> parsed_header(data) == Err::<
            (u16, u64, Seq<u8>),
            ErrorModel,
        >(ErrorModel::InvalidMagic),
{
    if data.len() >= 48 {
        lemma_two_byte_value(data.subrange(4, 6));
        lemma_two_byte_value(data.subrange(6, 8));
    }
}

} // verus!
