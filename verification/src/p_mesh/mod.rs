//! The P mesh file: a header of counts, then the vertex arrays.

pub mod data;
pub mod parser;

use vstd::prelude::*;

verus! {

/// Bytes of the header of a P file.
pub const P_FILE_HEADER_SIZE: usize = 128;

} // verus!
