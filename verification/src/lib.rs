//! A binary codec for beacon-chain records: little-endian integers, vectors
//! of a fixed length, lists with a bound, packed bit fields, and containers
//! whose variable fields are found through a table of offsets. Every decoder
//! states exactly which buffers it takes and why it refuses the others.

pub mod attestation;
pub mod bitpack;
pub mod bits;
pub mod bytes;
pub mod container;
pub mod container_proofs;
pub mod error;
pub mod header;
pub mod offset;
pub mod operations;
pub mod primitive;
pub mod sequence;
pub mod sync;
pub mod vector;
