//! A verified codec for the GVAS save-game container format used by
//! Unreal-Engine games.
//!
//! The crate decodes a GVAS byte buffer into a self-describing,
//! order-preserving property tree, lets callers replace values by path, and
//! re-serializes the tree.  The central contract is byte-exact round-trip:
//! whenever decoding succeeds, re-encoding the decoded tree reproduces the
//! input buffer exactly, even for property types the decoder does not
//! understand (those are carried as opaque byte blobs).

pub mod decode;
pub mod encode;
pub mod laws;
pub mod model;
pub mod prim;
pub mod save;
pub mod wfcheck;
pub mod wire;
