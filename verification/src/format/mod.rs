//! The payload envelope: a header followed by the payload bytes.
use vstd::prelude::*;

pub mod chunk;
pub mod header;
pub mod version;

verus! {

/// The four bytes that open every envelope header.
pub const MAGIC: [u8; 4] = [86u8, 83u8, 76u8, 0u8];

/// The chunk type under which an image carrier stores an envelope.
pub const VSL_TYPE: [u8; 4] = [118u8, 101u8, 83u8, 76u8];

} // verus!
