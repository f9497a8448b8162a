//! Smart filesystem copy: the verified core.
//!
//! Everything here works on plain values. Reading and writing files, sockets
//! and terminals is the business of the program around the library.

#![allow(unused_imports)]

pub mod browser;
pub mod buffer;
pub mod bytes;
pub mod chunker;
pub mod clock;
pub mod compress;
pub mod consistency;
pub mod constants;
pub mod errno;
pub mod error;
pub mod filter;
pub mod fxar;
pub mod governor;
pub mod hashing;
pub mod merkle;
pub mod metrics;
pub mod nfs;
pub mod operations;
pub mod order;
pub mod path;
pub mod security;
pub mod sidecar;
pub mod sync;
pub mod text;
pub mod tombstone;
pub mod version_store;
