//! Verified core of a visit-counter badge service.
//!
//! The crate keeps named counters together with badge metadata, renders the
//! counters as SVG badge images, and encodes the store as a pair of
//! JSON-style text snapshots that survive a restart.

pub mod assoc;
pub mod laws;
pub mod numtext;
pub mod render;
pub mod snapshot;
pub mod store;
pub mod strtext;
pub mod webtypes;
