//! An overlay virtual filesystem.
//!
//! Callers address resources by slash-rooted virtual paths.  An overlay
//! composes an ordered list of backing stores: reads are answered by the
//! first store that can satisfy them, writes are routed to the first store
//! that accepts writes.  A store is either directory-backed (read-write or
//! read-only) or archive-backed (always read-only, built from an index of
//! archive entries).  A facade owns the overlay, assembles the default
//! store order from well-known roots, and layers configuration-file
//! conveniences on top.

pub mod vpath;
pub mod types;
pub mod tree;
pub mod file;
pub mod backend;
pub mod overlay;
pub mod filesystem;
pub mod laws;
