//! Order and exclusion: sequence numbers, barriers that finished work passes,
//! one operation at a time per file, and replacing a file in one step.

pub mod journal;
pub mod sequencer;
pub mod serialization;
pub mod wal;
