//! Plain configuration and classification types shared by segments,
//! the holder and the optimizer.

use vstd::prelude::*;

verus! {

/// Distance function used to score vectors against a query.
///
/// Scores are reported in the metric's natural "higher is better"
/// orientation; for the euclidean metric the score is the negated
/// squared distance.
#[derive(Clone, Copy, Debug, PartialEq, Eq, Structural)]
pub enum Distance {
    Cosine,
    Euclid,
    Dot,
}

/// Construction and search parameters of an HNSW graph index.
#[derive(Clone, Copy, Debug, PartialEq, Eq, Structural)]
pub struct HnswConfig {
    /// Number of edges per node in the graph.
    pub m: usize,
    /// Size of the candidate beam used while building the graph.
    pub ef_construct: usize,
    /// Filtered searches whose estimated cardinality is below this
    /// threshold bypass the graph and score the filtered set exhaustively.
    pub full_scan_threshold: usize,
}

impl Default for HnswConfig {
    fn default() -> (r: Self)
        ensures
            r == (HnswConfig { m: 16, ef_construct: 100, full_scan_threshold: 10000 }),
    {
        HnswConfig { m: 16, ef_construct: 100, full_scan_threshold: 10000 }
    }
}

/// Form of the vector index of a segment.
#[derive(Clone, Copy, Debug, PartialEq, Eq, Structural)]
pub enum Indexes {
    /// No index: every candidate is scored.
    Plain,
    /// Layered proximity graph with the given parameters.
    Hnsw(HnswConfig),
}

/// Backing of the vector storage of a segment.
#[derive(Clone, Copy, Debug, PartialEq, Eq, Structural)]
pub enum StorageType {
    /// Contiguous heap buffer; supports appends and overwrites.
    InMemory,
    /// Read-only memory-mapped file; produced only by the optimizer.
    Mmap,
}

/// Form of the payload index of a segment.
#[derive(Clone, Copy, Debug, PartialEq, Eq, Structural)]
pub enum PayloadIndexType {
    /// Full scan over the payload storage.
    Plain,
    /// Per-field inverted structures.
    Struct,
}

/// Classification of a segment, a pure function of its configuration.
#[derive(Clone, Copy, Debug, PartialEq, Eq, Structural)]
pub enum SegmentType {
    /// No vector index and no payload index.
    Plain,
    /// Carries a vector index or a payload index.
    Indexed,
    /// Reserved classification outside the plain/indexed dichotomy.
    Special,
}

/// Configuration of one segment.
#[derive(Clone, Copy, Debug)]
pub struct SegmentConfig {
    /// Dimension of every stored vector.
    pub vector_size: usize,
    /// Distance function used for scoring.
    pub distance: Distance,
    /// Vector index form.
    pub index: Indexes,
    /// Payload index form; `None` means plain.
    pub payload_index: Option<PayloadIndexType>,
    /// Vector storage backing.
    pub storage_type: StorageType,
}

/// Persisted state of a segment: the last applied sequence number and
/// the configuration, written atomically at the segment directory root.
#[derive(Clone, Copy, Debug)]
pub struct SegmentState {
    pub version: crate::SeqNumberType,
    pub config: SegmentConfig,
}

/// Additional per-search parameters.
#[derive(Clone, Copy, Debug, PartialEq, Eq, Structural)]
pub struct SearchParams {
    /// Candidate beam size for a graph search; the engine's default
    /// when absent.
    pub hnsw_ef: Option<usize>,
}

/// Payload index form that a configuration leaving the field unset gets.
pub open spec fn spec_payload_index_or_default(p: Option<PayloadIndexType>) -> PayloadIndexType {
    match p {
        Some(t) => t,
        None => PayloadIndexType::Plain,
    }
}

/// Segment classification derived from a configuration: a segment is
/// `Plain` exactly when both its vector index and its payload index are
/// plain, and `Indexed` otherwise.
pub open spec fn spec_segment_type_of(config: SegmentConfig) -> SegmentType {
    match config.index {
        Indexes::Plain => match spec_payload_index_or_default(config.payload_index) {
            PayloadIndexType::Plain => SegmentType::Plain,
            PayloadIndexType::Struct => SegmentType::Indexed,
        },
        Indexes::Hnsw(_) => SegmentType::Indexed,
    }
}

/// A segment accepts appends exactly when its vector index is plain
/// and its storage is in memory. The payload index has no part in
/// this: a segment with payload structures but no vector index still
/// takes writes.
pub open spec fn spec_is_appendable(config: SegmentConfig) -> bool {
    &&& config.index matches Indexes::Plain
    &&& config.storage_type == StorageType::InMemory
}

/// Classify a configuration.
pub fn segment_type_of(config: &SegmentConfig) -> (t: SegmentType)
    ensures
        t == spec_segment_type_of(*config),
{
    match config.index {
        Indexes::Plain => match config.payload_index {
            Some(PayloadIndexType::Struct) => SegmentType::Indexed,
            _ => SegmentType::Plain,
        },
        Indexes::Hnsw(_) => SegmentType::Indexed,
    }
}

/// Decide whether a configuration describes an appendable segment.
pub fn is_appendable(config: &SegmentConfig) -> (b: bool)
    ensures
        b == spec_is_appendable(*config),
{
    let plain_index = match config.index {
        Indexes::Plain => true,
        Indexes::Hnsw(_) => false,
    };
    plain_index && config.storage_type == StorageType::InMemory
}

} // verus!
