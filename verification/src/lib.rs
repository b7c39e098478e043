//! libman: merges static-library archives and loose object files into one
//! output archive, resolving member-name collisions with stable ordinals.
//!
//! The crate computes everything a merge run decides: which arguments are
//! archives and which are objects, the unified member list, the ordinal each
//! colliding member receives, and the exact sequence of archiver and
//! filesystem actions that materializes the output.  Running those actions
//! (spawning the platform archiver) is left to the embedding program.

pub mod args;
pub mod dedup;
pub mod errors;
pub mod laws;
pub mod member;
pub mod plan;
pub mod scan;
pub mod text;
