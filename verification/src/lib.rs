//! A versioned snapshot store and history engine for housing-queue listings.
//!
//! Entity snapshots are kept as one JSON file each inside a git repository
//! that serves as an append-only log. The library plans snapshot writes and
//! commits them only when the content actually changed, walks the commit
//! graph visiting every commit exactly once, decodes entities across the
//! historical schema shapes, and folds the history into a downsampled chart.

pub mod codec;
pub mod git;
pub mod model;
pub mod read;
pub mod text;
pub mod user;
pub mod write;
