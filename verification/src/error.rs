//! Errors of the payload format and of the bundle layout.
use vstd::prelude::*;

verus! {

/// Every way in which encoding or decoding can fail.
#[derive(Debug)]
pub enum Error {
    EmptyPayload,
    MalformedVessel(String),
    UnsupportedVersion(u16),
    PayloadLength { declared: u64, available: usize },
    PayloadDigest,
    HeaderTooShort,
    InvalidMagic,
    VersionTruncated,
    FlagsTruncated,
    PayloadLengthTruncated,
    DigestTruncated,
    MalformedBundle(String),
    InvalidBundleEntryType,
    InvalidBundlePath,
    BundleTruncated,
    TrailingBundleData,
}

/// The mathematical value of an [`Error`]: messages become character sequences.
pub enum ErrorModel {
    EmptyPayload,
    MalformedVessel(Seq<char>),
    UnsupportedVersion(u16),
    PayloadLength { declared: u64, available: usize },
    PayloadDigest,
    HeaderTooShort,
    InvalidMagic,
    VersionTruncated,
    FlagsTruncated,
    PayloadLengthTruncated,
    DigestTruncated,
    MalformedBundle(Seq<char>),
    InvalidBundleEntryType,
    InvalidBundlePath,
    BundleTruncated,
    TrailingBundleData,
}

impl View for Error {
    type V = ErrorModel;

    open spec fn view(&self) -> ErrorModel {
        match self {
            Error::EmptyPayload => ErrorModel::EmptyPayload,
            Error::MalformedVessel(m) => ErrorModel::MalformedVessel(m@),
            Error::UnsupportedVersion(v) => ErrorModel::UnsupportedVersion(*v),
            Error::PayloadLength { declared, available } => ErrorModel::PayloadLength {
                declared: *declared,
                available: *available,
            },
            Error::PayloadDigest => ErrorModel::PayloadDigest,
            Error::HeaderTooShort => ErrorModel::HeaderTooShort,
            Error::InvalidMagic => ErrorModel::InvalidMagic,
            Error::VersionTruncated => ErrorModel::VersionTruncated,
            Error::FlagsTruncated => ErrorModel::FlagsTruncated,
            Error::PayloadLengthTruncated => ErrorModel::PayloadLengthTruncated,
            Error::DigestTruncated => ErrorModel::DigestTruncated,
            Error::MalformedBundle(m) => ErrorModel::MalformedBundle(m@),
            Error::InvalidBundleEntryType => ErrorModel::InvalidBundleEntryType,
            Error::InvalidBundlePath => ErrorModel::InvalidBundlePath,
            Error::BundleTruncated => ErrorModel::BundleTruncated,
            Error::TrailingBundleData => ErrorModel::TrailingBundleData,
        }
    }
}

/// A malformed-payload error carrying `message`.
pub fn malformed_vessel(message: &str) -> (e: Error)
    ensures
        e@ == ErrorModel::MalformedVessel(message@),
{
    Error::MalformedVessel(String::from_str(message))
}

/// A malformed-bundle error carrying `message`.
pub fn malformed_bundle(message: &str) -> (e: Error)
    ensures
        e@ == ErrorModel::MalformedBundle(message@),
{
    Error::MalformedBundle(String::from_str(message))
}

/// The error reported when reading or writing `path` failed with `source`:
/// a malformed-bundle error whose message is `I/O error for {path}: {source}`.
pub fn io_error(path: &str, source: &str) -> (e: Error)
    ensures
        e@ == ErrorModel::MalformedBundle("I/O error for "@ + path@ + ": "@ + source@),
{
    let mut message = String::from_str("I/O error for ");
    message.append(path);
    message.append(": ");
    message.append(source);
    Error::MalformedBundle(message)
}

} // verus!
