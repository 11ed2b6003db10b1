//! Packs a firmware image into an over-the-air update container (a fixed
//! 512-byte header followed by the payload, guarded by a CRC-16/X-25
//! checksum) and validates such containers.

pub mod le;
pub mod header;
pub mod outside;
pub mod container;
pub mod laws;
pub mod cli;
pub mod project;
