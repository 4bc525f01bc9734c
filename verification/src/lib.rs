//! Readers for the asset formats of Final Fantasy VII: the LGP archive
//! container and the fixed-layout P mesh and P model files stored in it.
//!
//! Every reader works on bytes that are already in memory and states, as a
//! contract over a mathematical model of those bytes, exactly what it returns.

pub mod field;
pub mod lgp;
pub mod p_mesh;
pub mod p_model;
pub mod stream;
pub mod trusted;
