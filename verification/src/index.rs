//! Interfaces of the two index families a segment composes: the
//! vector index, which answers nearest-neighbour queries, and the
//! payload index, which answers which offsets satisfy a filter and
//! estimates how many.

use vstd::prelude::*;
use crate::payload::{Condition, Filter};
use crate::segment::OperationResult;
use crate::search::ScoredPointOffset;
use crate::types::SearchParams;
use crate::{PayloadKeyType, PointOffsetType, VectorElementType};

verus! {

/// How many offsets a filter is expected to select.
#[derive(Clone, Copy, Debug, PartialEq, Eq, Structural)]
pub struct CardinalityEstimation {
    /// No fewer than this many.
    pub min: usize,
    /// Best single guess.
    pub exp: usize,
    /// No more than this many.
    pub max: usize,
}

/// A payload block big enough to drive graph-link enrichment: a
/// condition and how many offsets satisfy it.
#[derive(Clone, Debug)]
pub struct PayloadBlockCondition {
    pub condition: Condition,
    pub cardinality: usize,
}

/// Does a filtered graph search fall back to exhaustive scoring? It
/// does exactly when the filter's estimated cardinality is below the
/// configured full-scan threshold: walking the graph pays off only
/// when enough candidates pass the filter.
pub fn use_full_scan(estimation: &CardinalityEstimation, full_scan_threshold: usize) -> (r: bool)
    ensures
        r == (estimation.exp < full_scan_threshold),
{
    estimation.exp < full_scan_threshold
}

/// Nearest-neighbour search over a segment's vectors.
pub trait VectorIndex {
    /// Offsets closest to the vector, best first, at most `top`,
    /// restricted to offsets that pass the filter.
    fn search(
        &self,
        vector: &Vec<VectorElementType>,
        filter: Option<&Filter>,
        top: usize,
        params: Option<&SearchParams>,
    ) -> Vec<ScoredPointOffset>;

    /// Rebuild the internal index.
    fn build_index(&mut self) -> OperationResult<()>;
}

/// Filter evaluation over a segment's payloads.
pub trait PayloadIndex {
    /// The payload fields backed by an index.
    fn indexed_fields(&self) -> Vec<PayloadKeyType>;

    /// Mark a field as one that should be indexed.
    fn set_indexed(&mut self, field: &PayloadKeyType) -> OperationResult<()>;

    /// Drop a field's index.
    fn drop_index(&mut self, field: &PayloadKeyType) -> OperationResult<()>;

    /// Estimate how many offsets satisfy the filter.
    fn estimate_cardinality(&self, query: &Filter) -> CardinalityEstimation;

    /// All offsets that satisfy the filter.
    fn query_points(&self, query: &Filter) -> Vec<PointOffsetType>;

    /// Conditions of payload blocks that hold at least `threshold`
    /// offsets.
    fn payload_blocks(&self, threshold: usize) -> Vec<PayloadBlockCondition>;
}

} // verus!
