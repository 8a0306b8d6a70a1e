//! Collection-level request, result and error types, and the
//! operation envelope the update pipeline accepts and the write-ahead
//! log persists.

use vstd::prelude::*;
use crate::config::CollectionConfig;
use crate::payload::{Filter, PayloadMap};
use crate::segment::OperationError;
use crate::types::SearchParams;
use crate::{PayloadKeyType, PointIdType, SeqNumberType, VectorElementType};

verus! {

/// Health of the collection.
#[derive(Clone, Copy, Debug, PartialEq, Eq, Structural)]
pub enum CollectionStatus {
    /// Completely ready for requests.
    Green,
    /// Available, but some segments are under optimization.
    Yellow,
    /// Some segment failed to load.
    Red,
}

/// Point data as the query path returns it.
#[derive(Clone, Debug)]
pub struct Record {
    /// Id of the point.
    pub id: PointIdType,
    /// Values assigned to the point.
    pub payload: Option<PayloadMap>,
    /// Vector of the point.
    pub vector: Option<Vec<VectorElementType>>,
}

/// Current statistics and configuration of the collection.
#[derive(Clone, Debug)]
pub struct CollectionInfo {
    /// Health of the collection.
    pub status: CollectionStatus,
    /// Number of vectors in the collection.
    pub vectors_count: usize,
    /// Number of segments in the collection.
    pub segments_count: usize,
    /// Disk space used by the collection.
    pub disk_data_size: usize,
    /// Memory used by the collection.
    pub ram_data_size: usize,
    /// Collection settings.
    pub config: CollectionConfig,
}

/// How far an acknowledged update has come.
#[derive(Clone, Copy, Debug, PartialEq, Eq, Structural)]
pub enum UpdateStatus {
    /// Saved to the write-ahead log, queued for processing.
    Acknowledged,
    /// Applied; the changes are visible.
    Completed,
}

/// Answer of the update pipeline.
#[derive(Clone, Copy, Debug, PartialEq, Eq, Structural)]
pub struct UpdateResult {
    /// Sequence number of the operation.
    pub operation_id: SeqNumberType,
    /// How far the operation has come.
    pub status: UpdateStatus,
}

/// A nearest-neighbour search request.
#[derive(Clone, Debug)]
pub struct SearchRequest {
    /// Look for vectors closest to this one.
    pub vector: Vec<VectorElementType>,
    /// Look only at points that satisfy these conditions.
    pub filter: Option<Filter>,
    /// Additional search parameters.
    pub params: Option<SearchParams>,
    /// Largest number of results to return.
    pub top: usize,
}

/// A recommendation request: close to the positive examples, away
/// from the negative ones.
#[derive(Clone, Debug)]
pub struct RecommendRequest {
    /// Look for vectors closest to these points.
    pub positive: Vec<PointIdType>,
    /// Try to avoid vectors like these points.
    pub negative: Vec<PointIdType>,
    /// Look only at points that satisfy these conditions.
    pub filter: Option<Filter>,
    /// Additional search parameters.
    pub params: Option<SearchParams>,
    /// Largest number of results to return.
    pub top: usize,
}

/// Error of a collection-level operation.
#[derive(Clone, Debug)]
pub enum CollectionError {
    /// The request's data cannot be used: a dimension mismatch, a
    /// malformed payload.
    BadInput { description: String },
    /// No point carries the id.
    NotFound { missed_point_id: PointIdType },
    /// An internal failure: storage, log, or a worker out of reach.
    ServiceError { error: String },
    /// A semantically impossible request.
    BadRequest { description: String },
}

pub type CollectionResult<T> = Result<T, CollectionError>;

impl CollectionError {
    /// Collection-level kind of a segment error: a wrong vector or a
    /// bad value is the client's input, a missing point is not found,
    /// everything else is internal.
    pub fn from(err: OperationError) -> (r: CollectionError)
        ensures
            (match err {
                OperationError::WrongVector { .. } => r matches CollectionError::BadInput { .. },
                OperationError::TypeError { .. } => r matches CollectionError::BadInput { .. },
                OperationError::PointIdError { missed_point_id } => (r matches
                    CollectionError::NotFound { missed_point_id: m } && m == missed_point_id),
                OperationError::ServiceError { description } => (r matches
                    CollectionError::ServiceError { error } && error@ == description@),
            }),
    {
        match err {
            OperationError::WrongVector { .. } => CollectionError::BadInput {
                description: "wrong vector dimension".to_owned(),
            },
            OperationError::TypeError { .. } => CollectionError::BadInput {
                description: "unexpected payload type".to_owned(),
            },
            OperationError::PointIdError { missed_point_id } => CollectionError::NotFound {
                missed_point_id,
            },
            OperationError::ServiceError { description } => CollectionError::ServiceError {
                error: description,
            },
        }
    }
}

/// A batch of points to insert, with ids, vectors and, optionally, one
/// payload per point.
#[derive(Clone, Debug)]
pub enum PointInsertOperations {
    BatchPoints {
        ids: Vec<PointIdType>,
        vectors: Vec<Vec<VectorElementType>>,
        payloads: Option<Vec<PayloadMap>>,
    },
}

/// Point-level operations of the update envelope.
#[derive(Clone, Debug)]
pub enum PointOperations {
    UpsertPoints(PointInsertOperations),
    DeletePoints { ids: Vec<PointIdType> },
}

/// Payload-level operations of the update envelope.
#[derive(Clone, Debug)]
pub enum PayloadOps {
    SetPayload { payload: PayloadMap, points: Vec<PointIdType> },
    DeletePayload { keys: Vec<PayloadKeyType>, points: Vec<PointIdType> },
    ClearPayload { points: Vec<PointIdType> },
}

/// Field-index operations of the update envelope.
#[derive(Clone, Debug)]
pub enum FieldIndexOperations {
    CreateIndex(PayloadKeyType),
    DeleteIndex(PayloadKeyType),
}

/// One operation as the write-ahead log records it.
#[derive(Clone, Debug)]
pub enum CollectionUpdateOperations {
    PointOperation(PointOperations),
    PayloadOperation(PayloadOps),
    FieldIndexOperation(FieldIndexOperations),
}

} // verus!
