//! Collection-level configuration: collection parameters, optimizer
//! thresholds, and the write-ahead log settings. Reading and writing
//! `config.json` is the embedding program's work; the types and the
//! derived quantities live here.

use vstd::prelude::*;
use crate::types::{Distance, HnswConfig};

verus! {

/// Settings of the write-ahead log.
#[derive(Clone, Copy, Debug, PartialEq, Eq, Structural)]
pub struct WalConfig {
    /// Size of a single log segment, in megabytes.
    pub wal_capacity_mb: usize,
    /// Number of log segments created ahead of the used ones.
    pub wal_segments_ahead: usize,
}

impl Default for WalConfig {
    fn default() -> (r: Self)
        ensures
            r == (WalConfig { wal_capacity_mb: 32, wal_segments_ahead: 0 }),
    {
        WalConfig { wal_capacity_mb: 32, wal_segments_ahead: 0 }
    }
}

impl WalConfig {
    /// The log's segment capacity in bytes and its segment queue
    /// length, as the log implementation takes them.
    pub fn wal_options(&self) -> (r: (usize, usize))
        requires
            self.wal_capacity_mb * 1024 * 1024 <= usize::MAX,
        ensures
            r.0 == self.wal_capacity_mb * 1024 * 1024,
            r.1 == self.wal_segments_ahead,
    {
        (self.wal_capacity_mb * 1024 * 1024, self.wal_segments_ahead)
    }
}

/// Parameters every segment of the collection shares.
#[derive(Clone, Copy, Debug, PartialEq, Eq, Structural)]
pub struct CollectionParams {
    /// Dimension of the stored vectors.
    pub vector_size: usize,
    /// Distance function used for scoring.
    pub distance: Distance,
}

/// Settings of the optimizers.
#[derive(Clone, Copy, Debug, PartialEq, Eq, Structural)]
pub struct OptimizersConfig {
    /// Largest number of segments the optimizers aim for.
    pub max_segment_number: usize,
    /// Vector count from which a segment's storage is memory-mapped.
    pub memmap_threshold: usize,
    /// Vector count from which a segment gets a vector index.
    pub indexing_threshold: usize,
    /// Vector count from which indexed payload fields get structures.
    pub payload_indexing_threshold: usize,
    /// Seconds between forced flushes.
    pub flush_interval_sec: usize,
}

/// The collection's whole configuration, as persisted.
#[derive(Clone, Copy, Debug, PartialEq, Eq, Structural)]
pub struct CollectionConfig {
    pub params: CollectionParams,
    pub hnsw_config: HnswConfig,
    pub optimizer_config: OptimizersConfig,
    pub wal_config: WalConfig,
}

} // verus!
