//! A persistent vector-search collection, modelled for verification.
//!
//! The crate composes independent storage segments into one logical
//! collection: segments hold points (an external id, a fixed-dimension
//! vector, an optional payload), a holder registers live segments, an
//! optimizer promotes segments to indexed forms as they grow, and an
//! update pipeline dispatches sequenced operations and replays them on
//! recovery.

use vstd::prelude::*;

pub mod config;
pub mod holder;
pub mod operations;
pub mod optimizer;
pub mod index;
pub mod laws;
pub mod payload;
pub mod search;
pub mod segment;
pub mod types;
pub mod updater;

verus! {

/// Sequence number of an operation in the write-ahead log.
pub type SeqNumberType = u64;

/// Stable external identifier of a point.
pub type PointIdType = u64;

/// Dense segment-local offset of a point inside a segment's stores.
pub type PointOffsetType = usize;

/// One component of a stored vector, carried as the bit pattern of an
/// IEEE 754 single-precision number. The library stores and moves
/// vectors unchanged; arithmetic on the components is the caller's.
pub type VectorElementType = u32;

/// Key of a payload field.
pub type PayloadKeyType = String;

/// Type of vector in the update and query envelopes.
pub type VectorType = Vec<VectorElementType>;

} // verus!
