//! Versions of the envelope header.
use vstd::prelude::*;

verus! {

/// The only header version this library writes and accepts.
pub const CURRENT: u16 = 1;

} // verus!
