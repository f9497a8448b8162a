//! The FXAR archive: a header, a manifest, an index of chunks and the chunks
//! themselves, each stored once.

pub mod dedup;
pub mod records;
pub mod laws;
pub mod layout;
pub mod reader;
