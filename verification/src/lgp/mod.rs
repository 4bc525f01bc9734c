//! The LGP archive: many named files packed into one stream, found again
//! through a table of contents and a two-letter lookup table.

pub mod error;
pub mod laws;
pub mod lgp;
pub mod lgp_data;
pub mod parser;

use vstd::prelude::*;

verus! {

/// Bytes of the archive header: signature and file count.
pub const LGP_HEADER_SIZE: usize = 16;

/// Bytes of a name field, in the table of contents and before a file body.
pub const LGP_TOC_FILENAME_SIZE: usize = 20;

/// Bytes of one record of the table of contents.
pub const LGP_TOC_SIZE: usize = 27;

/// Rows, and columns, of the lookup table.
pub const LGP_LOOKUP_TABLE_SIZE: usize = 30;

/// Bytes of the header that precedes a file body: name and size.
pub const LGP_FILE_HEADER_SIZE: usize = 24;

/// Bytes of the product name that ends the archive.
pub const LGP_PRODUCT_NAME_SIZE: usize = 14;

} // verus!
