//! The copy engine's decisions.

pub mod copy;
pub mod probe;
pub mod segment;
pub mod sparse;
pub mod transfer;

use vstd::prelude::*;

verus! {

/// What a copy did.
#[derive(Debug, Clone, Copy, PartialEq, Eq, Structural)]
pub struct CopyStats {
    pub bytes_processed: u64,
    pub bytes_zeros: u64,
    /// How long the I/O took, in microseconds.
    pub io_micros: u64,
    pub ops_count: u64,
}

} // verus!
