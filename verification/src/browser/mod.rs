//! A browser with two panes: what it shows and what a key does. Listing
//! directories, reading keys and drawing is left to the program.

pub mod events;
pub mod model;
pub mod navigator;
