//! Turns a tree of address-tagged PowerPC assembly fragments into a single
//! binary code list: header parsing, temp-name hashing, object extraction
//! through the `elf` crate, and deterministic patch encoding.

pub mod codes;
pub mod encode;
pub mod extract;
pub mod hash;
pub mod header;
pub mod pipeline;
