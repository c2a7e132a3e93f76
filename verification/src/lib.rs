//! Payload envelope format: a fixed header with magic, version, flags,
//! payload length and SHA-256 digest, followed by the payload; and the
//! bundle layout that serialises an application directory tree into a
//! single payload.
use vstd::prelude::*;

pub mod bundle;
pub mod digest;
pub mod error;
pub mod format;
pub mod wire;

pub use format::{MAGIC, VSL_TYPE};

verus! {

/// The eight bytes that open every PNG file.
pub const PNG_SIGNATURE: [u8; 8] = [137u8, 80u8, 78u8, 71u8, 13u8, 10u8, 26u8, 10u8];

} // verus!
