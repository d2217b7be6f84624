//! Flattened device tree (DTB) decoding.
//!
//! The blob is validated, its structure block is decoded into tokens, the
//! tokens are assembled into an untyped tree, and the untyped tree is resolved
//! into typed nodes with phandle- and path-based cross references.

pub mod dtb;
pub mod header;
pub mod keys;
pub mod map;
pub mod memory_reservation;
pub mod node;
pub mod node_name;
pub mod parse;
pub mod property;
pub mod raw;
pub mod token;
