//! The P model file: the layout of the P mesh file, with the counts of the
//! header kept as they are stored.

pub mod data;
pub mod parser;

use vstd::prelude::*;

verus! {

/// Bytes of the header of a P file.
pub const P_FILE_HEADER_SIZE: usize = 128;

} // verus!
