//! Copying standard input to a file: which pieces are written and which become
//! holes, and when a checkpoint is due.

use crate::operations::segment;
use crate::sync::SyncStats;
use vstd::prelude::*;

verus! {

/// What to do with a piece of the input.
#[derive(Debug, Clone, Copy, PartialEq, Eq, Structural)]
pub enum PieceAction {
    /// Leave a hole.
    Hole,
    /// Write it at the offset.
    Write { offset: u64 },
}

/// How far copying standard input has come.
#[derive(Debug, Clone, Copy, PartialEq, Eq, Structural)]
pub struct StdinCopy {
    /// Pieces of zeros become holes.
    pub use_sparse: bool,
    /// How many checkpoints are kept.
    pub keep: usize,
    pub offset: u64,
    pub bytes_written: u64,
    pub bytes_sparse: u64,
    pub chunks_zero: u64,
    pub checkpoint_count: u64,
}

impl StdinCopy {
    /// Every byte up to the offset was either written or left out as a hole, and
    /// every hole has a byte at least.
    pub open spec fn wf(self) -> bool {
        self.bytes_written + self.bytes_sparse == self.offset && self.chunks_zero
            <= self.bytes_sparse
    }

    /// The beginning. Zero-copy transfers cannot look for zeros.
    pub fn new(zero_copy: bool, keep: usize) -> (c: Self)
        ensures
            c.wf(),
            c == (StdinCopy {
                use_sparse: !zero_copy,
                keep,
                offset: 0,
                bytes_written: 0,
                bytes_sparse: 0,
                chunks_zero: 0,
                checkpoint_count: 0,
            }),
    {
        StdinCopy {
            use_sparse: !zero_copy,
            keep,
            offset: 0,
            bytes_written: 0,
            bytes_sparse: 0,
            chunks_zero: 0,
            checkpoint_count: 0,
        }
    }

    /// Takes the next piece of the input.
    pub fn on_piece(&mut self, piece: &[u8]) -> (action: PieceAction)
        requires
            old(self).wf(),
            piece@.len() > 0,
            old(self).offset + piece@.len() <= u64::MAX,
        ensures
            final(self).wf(),
            final(self).offset == old(self).offset + piece@.len(),
            final(self).use_sparse == old(self).use_sparse,
            final(self).keep == old(self).keep,
            final(self).checkpoint_count == old(self).checkpoint_count,
            if old(self).use_sparse && segment::all_zero(piece@) {
                &&& action == PieceAction::Hole
                &&& final(self).bytes_sparse == old(self).bytes_sparse + piece@.len()
                &&& final(self).chunks_zero == old(self).chunks_zero + 1
                &&& final(self).bytes_written == old(self).bytes_written
            } else {
                &&& action == (PieceAction::Write { offset: old(self).offset })
                &&& final(self).bytes_written == old(self).bytes_written + piece@.len()
                &&& final(self).bytes_sparse == old(self).bytes_sparse
                &&& final(self).chunks_zero == old(self).chunks_zero
            },
    {
        let n: u64 = piece.len() as u64;
        let start: u64 = self.offset;
        self.offset = start + n;
        if self.use_sparse && segment::is_block_zero(piece) {
            self.bytes_sparse = self.bytes_sparse + n;
            self.chunks_zero = self.chunks_zero + 1;
            PieceAction::Hole
        } else {
            self.bytes_written = self.bytes_written + n;
            PieceAction::Write { offset: start }
        }
    }

    /// A checkpoint was made. Says whether old ones have to go.
    pub fn on_checkpoint(&mut self) -> (prune: bool)
        requires
            old(self).checkpoint_count < u64::MAX,
        ensures
            *final(self) == (StdinCopy {
                checkpoint_count: (old(self).checkpoint_count + 1) as u64,
                ..*old(self)
            }),
            prune == (old(self).checkpoint_count + 1 > old(self).keep),
    {
        self.checkpoint_count = self.checkpoint_count + 1;
        self.checkpoint_count > self.keep as u64
    }

    /// What the copy came to: one file, its holes counted apart.
    pub fn finish(&self) -> (s: SyncStats)
        ensures
            s == (SyncStats {
                files_copied: 1,
                bytes_copied: self.bytes_written,
                bytes_small: self.bytes_sparse,
                ..SyncStats::zero()
            }),
    {
        let zero = SyncStats::default();
        SyncStats {
            files_copied: 1,
            bytes_copied: self.bytes_written,
            bytes_small: self.bytes_sparse,
            ..zero
        }
    }
}

/// Whether a checkpoint is due: one is asked for every `interval` seconds, and
/// so many have passed since the last.
pub fn checkpoint_due(interval: Option<u64>, elapsed_secs: u64) -> (due: bool)
    ensures
        due == (match interval {
            Some(i) => elapsed_secs >= i,
            None => false,
        }),
{
    match interval {
        Some(i) => elapsed_secs >= i,
        None => false,
    }
}

/// The totals of a copied stream add up to its length.
pub proof fn stream_adds_up(c: StdinCopy)
    requires
        c.wf(),
    ensures
        (SyncStats {
            files_copied: 1,
            bytes_copied: c.bytes_written,
            bytes_small: c.bytes_sparse,
            ..SyncStats::zero()
        }).bytes_total() == c.offset,
{
}

/// Every piece of a stream is written where it belongs, but for runs of zeros where holes
/// are wanted; no byte is counted twice or not at all.
pub proof fn every_piece_is_written(c: &mut StdinCopy, piece: &[u8], action: PieceAction)
    requires
        call_ensures(StdinCopy::on_piece, (c, piece), action),
    ensures
        ({
            let zero = piece@ == crate::bytes::zeros(piece@.len());
            &&& action == PieceAction::Hole <==> old(c).use_sparse && zero
            &&& action != PieceAction::Hole ==> action == (PieceAction::Write {
                offset: old(c).offset,
            })
            &&& final(c).offset == old(c).offset + piece@.len()
            &&& final(c).bytes_written + final(c).bytes_sparse == old(c).bytes_written + old(
                c,
            ).bytes_sparse + piece@.len()
            &&& action == PieceAction::Hole ==> final(c).bytes_written == old(c).bytes_written
            &&& action != PieceAction::Hole ==> final(c).bytes_sparse == old(c).bytes_sparse
        }),
{
    segment::zero_block_is_zeros(piece@);
}

/// A checkpoint is due once the interval has passed, and the old ones are pruned once there
/// are more than are kept.
pub proof fn checkpoints_are_due(
    interval: Option<u64>,
    elapsed: u64,
    due: bool,
    c: &mut StdinCopy,
    prune: bool,
)
    requires
        call_ensures(checkpoint_due, (interval, elapsed), due),
        call_ensures(StdinCopy::on_checkpoint, (c,), prune),
        old(c).checkpoint_count < u64::MAX,
    ensures
        due <==> interval is Some && interval->0 <= elapsed,
        final(c).checkpoint_count == old(c).checkpoint_count + 1,
        prune <==> final(c).checkpoint_count > old(c).keep,
        final(c).bytes_written == old(c).bytes_written && final(c).offset == old(c).offset,
{
}

} // verus!
