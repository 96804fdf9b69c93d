//! Reporting layer for a flattened instruction program: label lookup per
//! address, disassembly listings, the host-call table, and execution profiles.

pub mod document;
pub mod host;
pub mod input;
pub mod labels;
pub mod profile;
pub mod render;
pub mod text;
