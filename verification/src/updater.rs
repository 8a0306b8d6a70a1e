//! The update pipeline's dispatcher: applies sequenced operations to
//! the segment holder, point by point, through find-or-assign routing,
//! and replays recorded operations on recovery. Because every segment
//! skips operations older than its version, replaying a suffix of the
//! log after a crash is safe.

use vstd::prelude::*;
use crate::holder::{
    HolderView, SegmentHolder, holder_upsert_payload, sh_disjoint, sh_has_appendable, sh_points,
};
use crate::payload::PayloadValueView;
use crate::segment::{OperationError, StoredPointView};
use crate::types::spec_is_appendable;
use crate::operations::{
    CollectionError, CollectionResult, CollectionUpdateOperations, FieldIndexOperations,
    PayloadOps, PointInsertOperations, PointOperations,
};
use crate::payload::PayloadMap;
use crate::{PointIdType, SeqNumberType, VectorElementType};

verus! {

/// Holder state every dispatched operation preserves: well-formed
/// registry, at most one owner per point, at least one appendable
/// segment.
pub open spec fn updater_inv(u: SimpleSegmentUpdater) -> bool {
    &&& u.segments.wf()
    &&& sh_disjoint(u.segments@)
    &&& sh_has_appendable(u.segments@)
}

/// Every payload of a batch is well formed.
pub open spec fn spec_payloads_wf(op: PointOperations) -> bool {
    match op {
        PointOperations::UpsertPoints(PointInsertOperations::BatchPoints { payloads, .. }) => {
            payloads matches Some(pl) ==> forall|i: int|
                0 <= i < pl@.len() ==> (#[trigger] pl@[i]).wf()
        },
        PointOperations::DeletePoints { .. } => true,
    }
}

/// No registered segment's version is beyond the given sequence
/// number: the operation is fresh, and no segment will skip it.
pub open spec fn sh_versions_at_most(s: HolderView, v: SeqNumberType) -> bool {
    forall|i: int| 0 <= i < s.len() ==> (#[trigger] s[i].1).version <= v
}

/// Effect of one upsert on the collection's live points.
pub open spec fn spec_upsert_step(
    m: Map<PointIdType, StoredPointView>,
    id: PointIdType,
    vector: Seq<VectorElementType>,
    payload: Option<Map<Seq<char>, PayloadValueView>>,
) -> Map<PointIdType, StoredPointView> {
    m.insert(id, StoredPointView { vector, payload: holder_upsert_payload(m, id, payload) })
}

/// Live points after the first `k` points of an upsert batch.
pub open spec fn spec_upsert_batch(
    m: Map<PointIdType, StoredPointView>,
    ids: Seq<PointIdType>,
    vectors: Seq<Seq<VectorElementType>>,
    payloads: Option<Seq<Map<Seq<char>, PayloadValueView>>>,
    k: int,
) -> Map<PointIdType, StoredPointView>
    decreases k,
{
    if k <= 0 {
        m
    } else {
        let prev = spec_upsert_batch(m, ids, vectors, payloads, k - 1);
        spec_upsert_step(
            prev,
            ids[k - 1],
            vectors[k - 1],
            match payloads {
                Some(p) => Some(p[k - 1]),
                None => None,
            },
        )
    }
}

/// Every segment's configured dimension equals every batch vector's
/// length: no upsert of the batch can be rejected for its dimension,
/// whichever segment it is routed to.
pub open spec fn sh_dims_match(s: HolderView, vectors: Seq<Seq<VectorElementType>>) -> bool {
    forall|i: int, k: int|
        0 <= i < s.len() && 0 <= k < vectors.len() ==> (#[trigger] s[i].1).config.vector_size
            == #[trigger] vectors[k].len()
}

/// The batch's ids, vectors and payloads line up.
pub open spec fn spec_batch_counts_ok(op: PointOperations) -> bool {
    match op {
        PointOperations::UpsertPoints(PointInsertOperations::BatchPoints {
            ids,
            vectors,
            payloads,
        }) => ids@.len() == vectors@.len() && (payloads matches Some(pl) ==> pl@.len()
            == ids@.len()),
        PointOperations::DeletePoints { .. } => true,
    }
}

/// Live points after the first `k` points of a delete batch.
pub open spec fn spec_delete_batch(
    m: Map<PointIdType, StoredPointView>,
    ids: Seq<PointIdType>,
    k: int,
) -> Map<PointIdType, StoredPointView>
    decreases k,
{
    if k <= 0 {
        m
    } else {
        spec_delete_batch(m, ids, k - 1).remove(ids[k - 1])
    }
}

/// The point ids a payload operation touches.
pub open spec fn spec_payload_points(op: PayloadOps) -> Seq<PointIdType> {
    match op {
        PayloadOps::SetPayload { points, .. } => points@,
        PayloadOps::DeletePayload { points, .. } => points@,
        PayloadOps::ClearPayload { points } => points@,
    }
}

/// Effect of one payload operation on one point: merge, trim or clear
/// the payload of a live point; a missing point leaves the map as it
/// is.
pub open spec fn spec_payload_step(
    m: Map<PointIdType, StoredPointView>,
    id: PointIdType,
    op: PayloadOps,
) -> Map<PointIdType, StoredPointView> {
    if m.contains_key(id) {
        let p = m[id];
        let newp = match op {
            PayloadOps::SetPayload { payload, .. } => p.payload.union_prefer_right(payload@),
            PayloadOps::DeletePayload { keys, .. } => crate::segment::map_without_keys(
                p.payload,
                keys@.map_values(|s: String| s@),
            ),
            PayloadOps::ClearPayload { .. } => Map::empty(),
        };
        m.insert(id, StoredPointView { vector: p.vector, payload: newp })
    } else {
        m
    }
}

/// Live points after the first `k` points of a payload operation.
pub open spec fn spec_payload_batch(
    m: Map<PointIdType, StoredPointView>,
    op: PayloadOps,
    k: int,
) -> Map<PointIdType, StoredPointView>
    decreases k,
{
    if k <= 0 {
        m
    } else {
        spec_payload_step(spec_payload_batch(m, op, k - 1), spec_payload_points(op)[k - 1], op)
    }
}

/// Effect of one recorded operation on the collection's live points,
/// when every segment applies it.
pub open spec fn spec_apply_operation(
    m: Map<PointIdType, StoredPointView>,
    op: CollectionUpdateOperations,
) -> Map<PointIdType, StoredPointView> {
    match op {
        CollectionUpdateOperations::PointOperation(
            PointOperations::UpsertPoints(PointInsertOperations::BatchPoints {
                ids,
                vectors,
                payloads,
            }),
        ) => spec_upsert_batch(
            m,
            ids@,
            vectors@.map_values(|v: Vec<VectorElementType>| v@),
            match payloads {
                Some(p) => Some(p@.map_values(|q: PayloadMap| q@)),
                None => None,
            },
            ids@.len() as int,
        ),
        CollectionUpdateOperations::PointOperation(PointOperations::DeletePoints { ids }) => {
            spec_delete_batch(m, ids@, ids@.len() as int)
        },
        CollectionUpdateOperations::PayloadOperation(p) => spec_payload_batch(
            m,
            p,
            spec_payload_points(p).len() as int,
        ),
        CollectionUpdateOperations::FieldIndexOperation(_) => m,
    }
}

/// A recorded operation that cannot fail, whatever the points hold:
/// an upsert whose counts line up and whose vectors fit every
/// segment's dimension, a deletion, or a field-index change. Payload
/// operations depend on which points are live, so they are not here.
pub open spec fn spec_record_total_ok(s: HolderView, op: CollectionUpdateOperations) -> bool {
    match op {
        CollectionUpdateOperations::PointOperation(pop) => match pop {
            PointOperations::UpsertPoints(PointInsertOperations::BatchPoints {
                ids: _,
                vectors,
                payloads: _,
            }) => spec_batch_counts_ok(pop) && sh_dims_match(
                s,
                vectors@.map_values(|v: Vec<VectorElementType>| v@),
            ),
            PointOperations::DeletePoints { .. } => true,
        },
        CollectionUpdateOperations::PayloadOperation(_) => false,
        CollectionUpdateOperations::FieldIndexOperation(_) => true,
    }
}

/// Live points after the first `k` recorded operations.
pub open spec fn spec_replay(
    m: Map<PointIdType, StoredPointView>,
    records: Seq<(SeqNumberType, CollectionUpdateOperations)>,
    k: int,
) -> Map<PointIdType, StoredPointView>
    decreases k,
{
    if k <= 0 {
        m
    } else {
        spec_apply_operation(spec_replay(m, records, k - 1), records[k - 1].1)
    }
}

/// The records' sequence numbers never decrease: the order the
/// write-ahead log assigned them.
pub open spec fn spec_records_ascending(
    records: Seq<(SeqNumberType, CollectionUpdateOperations)>,
) -> bool {
    forall|i: int, j: int| 0 <= i < j < records.len() ==> records[i].0 <= records[j].0
}

/// Applies sequenced operations to the segment holder.
pub struct SimpleSegmentUpdater {
    pub segments: SegmentHolder,
}

impl SimpleSegmentUpdater {
    pub fn new(segments: SegmentHolder) -> (r: Self)
        ensures
            r.segments == segments,
    {
        SimpleSegmentUpdater { segments }
    }

    /// Apply a point operation: upsert each point into its owning or
    /// an appendable segment, or delete each point wherever it lives.
    /// Stops at the first failing point. Returns how many points were
    /// applied (points skipped as already applied do not count).
    pub fn process_point_operation(
        &mut self,
        op_num: SeqNumberType,
        operation: &PointOperations,
    ) -> (r: CollectionResult<usize>)
        requires
            updater_inv(*old(self)),
            spec_payloads_wf(*operation),
        ensures
            updater_inv(*final(self)),
            final(self).segments@.len() == old(self).segments@.len(),
            forall|i: int|
                0 <= i < old(self).segments@.len() ==> (#[trigger] final(self).segments@[i]).0
                    == old(self).segments@[i].0 && final(self).segments@[i].1.config
                    == old(self).segments@[i].1.config && final(self).segments@[i].1.indexed_fields
                    == old(self).segments@[i].1.indexed_fields,
            forall|i: int|
                0 <= i < old(self).segments@.len() ==> (#[trigger] final(self).segments@[i])
                    .1.version == old(self).segments@[i].1.version
                    || final(self).segments@[i].1.version == op_num,
            (r matches Err(e) ==> e matches CollectionError::BadInput { .. }),
            (match *operation {
                PointOperations::UpsertPoints(PointInsertOperations::BatchPoints {
                    ref ids,
                    ref vectors,
                    ref payloads,
                }) => {
                    &&& ((sh_versions_at_most(old(self).segments@, op_num) && r matches Ok(_))
                        ==> sh_points(final(self).segments@) == spec_upsert_batch(
                        sh_points(old(self).segments@),
                        ids@,
                        vectors@.map_values(|v: Vec<VectorElementType>| v@),
                        match *payloads {
                            Some(ref p) => Some(p@.map_values(|q: PayloadMap| q@)),
                            None => None,
                        },
                        ids@.len() as int,
                    ))
                    &&& ((sh_versions_at_most(old(self).segments@, op_num)
                        && spec_batch_counts_ok(*operation) && sh_dims_match(
                        old(self).segments@,
                        vectors@.map_values(|v: Vec<VectorElementType>| v@),
                    )) ==> (r matches Ok(n) && n == ids@.len()))
                },
                PointOperations::DeletePoints { ref ids } => {
                    &&& ((sh_versions_at_most(old(self).segments@, op_num) && r matches Ok(_))
                        ==> sh_points(final(self).segments@) == spec_delete_batch(
                        sh_points(old(self).segments@),
                        ids@,
                        ids@.len() as int,
                    ))
                    &&& (r matches Ok(_))
                },
            }),
    {
        let ghost orig = self.segments@;
        match operation {
            PointOperations::UpsertPoints(PointInsertOperations::BatchPoints {
                ids,
                vectors,
                payloads,
            }) => {
                if ids.len() != vectors.len() {
                    return Err(
                        CollectionError::BadInput {
                            description: "ids and vectors counts differ".to_owned(),
                        },
                    );
                }
                match payloads {
                    Some(pl) => {
                        if pl.len() != ids.len() {
                            return Err(
                                CollectionError::BadInput {
                                    description: "ids and payloads counts differ".to_owned(),
                                },
                            );
                        }
                    },
                    None => {},
                }
                let n = ids.len();
                let ghost gvecs = vectors@.map_values(|v: Vec<VectorElementType>| v@);
                let ghost gpls: Option<Seq<Map<Seq<char>, PayloadValueView>>> = match payloads {
                    Some(p) => Some(p@.map_values(|q: PayloadMap| q@)),
                    None => None,
                };
                let mut applied: usize = 0;
                let mut k: usize = 0;
                while k < n
                    invariant
                        (*operation matches PointOperations::UpsertPoints(
                            PointInsertOperations::BatchPoints { ids: i2, vectors: v2, payloads: p2 },
                        ) && i2 == *ids && v2 == *vectors && p2 == *payloads),
                        n == ids@.len(),
                        n == vectors@.len(),
                        (payloads matches Some(pl) ==> pl@.len() == n && forall|i: int|
                            0 <= i < pl@.len() ==> (#[trigger] pl@[i]).wf()),
                        gvecs == vectors@.map_values(|v: Vec<VectorElementType>| v@),
                        (match payloads {
                            Some(p) => gpls == Some(p@.map_values(|q: PayloadMap| q@)),
                            None => gpls is None,
                        }),
                        0 <= k <= n,
                        applied <= k,
                        updater_inv(*self),
                        orig == old(self).segments@,
                        self.segments@.len() == orig.len(),
                        forall|i: int|
                            0 <= i < orig.len() ==> (#[trigger] self.segments@[i]).0 == orig[i].0
                                && self.segments@[i].1.config == orig[i].1.config
                                && self.segments@[i].1.indexed_fields == orig[i].1.indexed_fields,
                        forall|i: int|
                            0 <= i < orig.len() ==> (#[trigger] self.segments@[i]).1.version
                                == orig[i].1.version || self.segments@[i].1.version == op_num,
                        sh_versions_at_most(orig, op_num) ==> sh_versions_at_most(
                            self.segments@,
                            op_num,
                        ) && sh_points(self.segments@) == spec_upsert_batch(
                            sh_points(orig),
                            ids@,
                            gvecs,
                            gpls,
                            k as int,
                        ),
                        (sh_versions_at_most(orig, op_num) && sh_dims_match(orig, gvecs))
                            ==> applied == k,
                    decreases n - k,
                {
                    let ghost before = self.segments@;
                    let pl_ref: Option<&PayloadMap> = match payloads {
                        Some(pl) => Some(&pl[k]),
                        None => None,
                    };
                    let res = self.segments.upsert_point(op_num, ids[k], &vectors[k], pl_ref);
                    proof {
                        if sh_has_appendable(before) {
                            let w = choose|i: int|
                                0 <= i < before.len() && crate::types::spec_is_appendable(
                                    #[trigger] before[i].1.config,
                                );
                            assert(crate::types::spec_is_appendable(
                                self.segments@[w].1.config,
                            ));
                        }
                    }
                    proof {
                        assert forall|i: int|
                            0 <= i < orig.len() implies (#[trigger] self.segments@[i]).1.version
                            == orig[i].1.version || self.segments@[i].1.version == op_num by {
                            assert(self.segments@[i].1.version == before[i].1.version
                                || self.segments@[i].1.version == op_num);
                        }
                        if sh_versions_at_most(orig, op_num) {
                            assert forall|i: int|
                                0 <= i < self.segments@.len() implies (#[trigger] self
                                .segments@[i]).1.version <= op_num by {
                                assert(before[i].1.version <= op_num);
                            }
                            match res {
                                Ok(true) => {
                                    assert(sh_points(self.segments@) == spec_upsert_batch(
                                        sh_points(orig),
                                        ids@,
                                        gvecs,
                                        gpls,
                                        k + 1,
                                    ));
                                },
                                Ok(false) => {
                                    assert(false);
                                },
                                Err(_) => {},
                            }
                            if sh_dims_match(orig, gvecs) {
                                match &res {
                                    Ok(_) => {},
                                    Err(e0) => {
                                        assert(*e0 matches OperationError::WrongVector { .. });
                                        match e0 {
                                            OperationError::WrongVector {
                                                expected_dim,
                                                received_dim,
                                            } => {
                                                let w = choose|i: int|
                                                    0 <= i < before.len() && spec_is_appendable(
                                                        (#[trigger] before[i]).1.config,
                                                    ) && before[i].1.config.vector_size
                                                        == expected_dim;
                                                assert(before[w].1.config == orig[w].1.config);
                                                assert(orig[w].1.config.vector_size == gvecs[
                                                    k as int].len());
                                                assert(false);
                                            },
                                            _ => {},
                                        }
                                    },
                                }
                            }
                        }
                    }
                    match res {
                        Ok(true) => {
                            applied += 1;
                        },
                        Ok(false) => {},
                        Err(e) => {
                            proof {
                                assert(e matches OperationError::WrongVector { .. });
                                assert(vectors@.map_values(|v: Vec<VectorElementType>| v@)
                                    =~= gvecs);
                                assert(!(sh_versions_at_most(orig, op_num) && sh_dims_match(
                                    orig,
                                    gvecs,
                                )));
                            }
                            return Err(CollectionError::from(e));
                        },
                    }
                    k += 1;
                }
                Ok(applied)
            },
            PointOperations::DeletePoints { ids } => {
                let n = ids.len();
                let mut applied: usize = 0;
                let mut k: usize = 0;
                while k < n
                    invariant
                        (*operation matches PointOperations::DeletePoints { ids: i2 } && i2
                            == *ids),
                        n == ids@.len(),
                        0 <= k <= n,
                        applied <= k,
                        updater_inv(*self),
                        orig == old(self).segments@,
                        self.segments@.len() == orig.len(),
                        forall|i: int|
                            0 <= i < orig.len() ==> (#[trigger] self.segments@[i]).0 == orig[i].0
                                && self.segments@[i].1.config == orig[i].1.config
                                && self.segments@[i].1.indexed_fields == orig[i].1.indexed_fields,
                        forall|i: int|
                            0 <= i < orig.len() ==> (#[trigger] self.segments@[i]).1.version
                                == orig[i].1.version || self.segments@[i].1.version == op_num,
                        sh_versions_at_most(orig, op_num) ==> sh_versions_at_most(
                            self.segments@,
                            op_num,
                        ) && sh_points(self.segments@) == spec_delete_batch(
                            sh_points(orig),
                            ids@,
                            k as int,
                        ),
                    decreases n - k,
                {
                    let ghost before = self.segments@;
                    let res = self.segments.delete_point(op_num, ids[k]);
                    proof {
                        if sh_has_appendable(before) {
                            let w = choose|i: int|
                                0 <= i < before.len() && crate::types::spec_is_appendable(
                                    #[trigger] before[i].1.config,
                                );
                            assert(crate::types::spec_is_appendable(
                                self.segments@[w].1.config,
                            ));
                        }
                    }
                    proof {
                        assert forall|i: int|
                            0 <= i < orig.len() implies (#[trigger] self.segments@[i]).1.version
                            == orig[i].1.version || self.segments@[i].1.version == op_num by {
                            assert(self.segments@[i].1.version == before[i].1.version
                                || self.segments@[i].1.version == op_num);
                        }
                        if sh_versions_at_most(orig, op_num) {
                            assert forall|i: int|
                                0 <= i < self.segments@.len() implies (#[trigger] self
                                .segments@[i]).1.version <= op_num by {
                                assert(before[i].1.version <= op_num);
                            }
                            match res {
                                Ok(true) => {},
                                Ok(false) => {
                                    crate::holder::lemma_sh_points_dom(
                                        before,
                                        ids@[k as int],
                                    );
                                    assert(sh_points(self.segments@) =~= spec_delete_batch(
                                        sh_points(orig),
                                        ids@,
                                        k + 1,
                                    ));
                                },
                                Err(_) => {},
                            }
                        }
                    }
                    match res {
                        Ok(true) => {
                            applied += 1;
                        },
                        Ok(false) => {},
                        Err(e) => {
                            proof {
                                assert(false);
                            }
                            return Err(CollectionError::from(e));
                        },
                    }
                    k += 1;
                }
                Ok(applied)
            },
        }
    }

    /// Apply a payload operation to each listed point, in its owning
    /// segment. Stops at the first failing point.
    pub fn process_payload_operation(
        &mut self,
        op_num: SeqNumberType,
        operation: &PayloadOps,
    ) -> (r: CollectionResult<usize>)
        requires
            updater_inv(*old(self)),
            (operation matches PayloadOps::SetPayload { payload, .. } ==> payload.wf()),
        ensures
            updater_inv(*final(self)),
            final(self).segments@.len() == old(self).segments@.len(),
            forall|i: int|
                0 <= i < old(self).segments@.len() ==> (#[trigger] final(self).segments@[i]).0
                    == old(self).segments@[i].0 && final(self).segments@[i].1.config
                    == old(self).segments@[i].1.config && final(self).segments@[i].1.indexed_fields
                    == old(self).segments@[i].1.indexed_fields,
            forall|i: int|
                0 <= i < old(self).segments@.len() ==> (#[trigger] final(self).segments@[i])
                    .1.points.dom() == old(self).segments@[i].1.points.dom(),
            forall|i: int|
                0 <= i < old(self).segments@.len() ==> (#[trigger] final(self).segments@[i])
                    .1.version == old(self).segments@[i].1.version
                    || final(self).segments@[i].1.version == op_num,
            ((sh_versions_at_most(old(self).segments@, op_num) && r matches Ok(_)) ==> sh_points(
                final(self).segments@,
            ) == spec_payload_batch(
                sh_points(old(self).segments@),
                *operation,
                spec_payload_points(*operation).len() as int,
            )),
            ((sh_versions_at_most(old(self).segments@, op_num) && (forall|k: int|
                #![trigger spec_payload_points(*operation)[k]]
                0 <= k < spec_payload_points(*operation).len() ==> exists|i: int|
                    0 <= i < old(self).segments@.len() && (#[trigger] old(self).segments@[i])
                        .1.points.contains_key(spec_payload_points(*operation)[k])
                        && crate::types::spec_is_appendable(old(self).segments@[i].1.config)))
                ==> (r matches Ok(n) && n == spec_payload_points(*operation).len())),
            (r matches Err(e) ==> (e matches CollectionError::NotFound { .. } || e matches
                CollectionError::ServiceError { .. })),
            (r matches Err(CollectionError::NotFound { missed_point_id })
                ==> spec_payload_points(*operation).contains(missed_point_id) && !sh_points(
                old(self).segments@,
            ).contains_key(missed_point_id)),
    {
        let ghost orig = self.segments@;
        let points: &Vec<PointIdType> = match operation {
            PayloadOps::SetPayload { points, .. } => points,
            PayloadOps::DeletePayload { points, .. } => points,
            PayloadOps::ClearPayload { points } => points,
        };
        let n = points.len();
        let mut applied: usize = 0;
        let mut k: usize = 0;
        while k < n
            invariant
                points@ == spec_payload_points(*operation),
                n == points@.len(),
                0 <= k <= n,
                applied <= k,
                (operation matches PayloadOps::SetPayload { payload, .. } ==> payload.wf()),
                updater_inv(*self),
                orig == old(self).segments@,
                self.segments@.len() == orig.len(),
                forall|i: int|
                    0 <= i < orig.len() ==> (#[trigger] self.segments@[i]).0 == orig[i].0
                        && self.segments@[i].1.config == orig[i].1.config
                        && self.segments@[i].1.indexed_fields == orig[i].1.indexed_fields,
                forall|i: int|
                    0 <= i < orig.len() ==> (#[trigger] self.segments@[i]).1.points.dom()
                        == orig[i].1.points.dom(),
                forall|i: int|
                    0 <= i < orig.len() ==> (#[trigger] self.segments@[i]).1.version == orig[i]
                        .1.version || self.segments@[i].1.version == op_num,
                sh_versions_at_most(orig, op_num) ==> sh_versions_at_most(self.segments@, op_num)
                    && sh_points(self.segments@) == spec_payload_batch(
                    sh_points(orig),
                    *operation,
                    k as int,
                ),
                (sh_versions_at_most(orig, op_num) && (forall|k2: int|
                    #![trigger spec_payload_points(*operation)[k2]]
                    0 <= k2 < spec_payload_points(*operation).len() ==> exists|i: int|
                        0 <= i < orig.len() && (#[trigger] orig[i]).1.points.contains_key(
                            spec_payload_points(*operation)[k2],
                        ) && crate::types::spec_is_appendable(orig[i].1.config))) ==> applied
                    == k,
            decreases n - k,
        {
            let ghost before = self.segments@;
            let res = match operation {
                PayloadOps::SetPayload { payload, .. } => self.segments.set_payload(
                    op_num,
                    points[k],
                    payload,
                ),
                PayloadOps::DeletePayload { keys, .. } => self.segments.delete_payload(
                    op_num,
                    points[k],
                    keys,
                ),
                PayloadOps::ClearPayload { .. } => self.segments.clear_payload(op_num, points[k]),
            };
            proof {
                if sh_has_appendable(before) {
                    let w = choose|i: int|
                        0 <= i < before.len() && crate::types::spec_is_appendable(
                            #[trigger] before[i].1.config,
                        );
                    assert(crate::types::spec_is_appendable(self.segments@[w].1.config));
                }
                assert forall|i: int|
                    0 <= i < orig.len() implies (#[trigger] self.segments@[i]).1.version == orig[i]
                    .1.version || self.segments@[i].1.version == op_num by {
                    assert(self.segments@[i].1.version == before[i].1.version
                        || self.segments@[i].1.version == op_num);
                }
                crate::holder::lemma_sh_points_dom(before, points@[k as int]);
                crate::holder::lemma_sh_points_dom(orig, points@[k as int]);
                if sh_versions_at_most(orig, op_num) {
                    assert forall|i: int|
                        0 <= i < self.segments@.len() implies (#[trigger] self.segments@[i])
                        .1.version <= op_num by {
                        assert(before[i].1.version <= op_num);
                    }
                    match &res {
                        Ok(true) => {
                            assert(sh_points(self.segments@) == spec_payload_batch(
                                sh_points(orig),
                                *operation,
                                k + 1,
                            ));
                        },
                        Ok(false) => {
                            assert(false);
                        },
                        Err(_) => {},
                    }
                }
            }
            match res {
                Ok(true) => {
                    applied += 1;
                },
                Ok(false) => {},
                Err(e) => {
                    proof {
                        if sh_versions_at_most(orig, op_num) && (forall|k2: int|
                            #![trigger spec_payload_points(*operation)[k2]]
                            0 <= k2 < spec_payload_points(*operation).len() ==> exists|i: int|
                                0 <= i < orig.len() && (#[trigger] orig[i]).1.points.contains_key(
                                    spec_payload_points(*operation)[k2],
                                ) && crate::types::spec_is_appendable(orig[i].1.config)) {
                            let oi = choose|i: int|
                                0 <= i < orig.len() && (#[trigger] orig[i]).1.points.contains_key(
                                    spec_payload_points(*operation)[k as int],
                                ) && crate::types::spec_is_appendable(orig[i].1.config);
                            assert(before[oi].1.points.contains_key(points@[k as int]));
                            match &e {
                                OperationError::PointIdError { .. } => {
                                    assert(false);
                                },
                                OperationError::ServiceError { .. } => {
                                    let bj = choose|j: int|
                                        0 <= j < before.len() && (#[trigger] before[j])
                                            .1.points.contains_key(points@[k as int])
                                            && !crate::types::spec_is_appendable(
                                            before[j].1.config,
                                        );
                                    crate::laws::lemma_unique_owner(
                                        before,
                                        oi,
                                        bj,
                                        points@[k as int],
                                    );
                                    assert(false);
                                },
                                _ => {
                                    assert(false);
                                },
                            }
                        }
                        match &e {
                            OperationError::PointIdError { missed_point_id } => {
                                assert(points@.contains(points@[k as int]));
                                if sh_points(orig).contains_key(points@[k as int]) {
                                    let wi = choose|i: int|
                                        0 <= i < orig.len() && (#[trigger] orig[i].1)
                                            .points.contains_key(points@[k as int]);
                                    assert(orig[wi].1.points.dom().contains(points@[k as int]));
                                    assert(before[wi].1.points.dom() == orig[wi].1.points.dom());
                                    assert(before[wi].1.points.contains_key(points@[k as int]));
                                }
                                assert(!sh_points(orig).contains_key(points@[k as int]));
                            },
                            _ => {},
                        }
                    }
                    return Err(CollectionError::from(e));
                },
            }
            k += 1;
        }
        Ok(applied)
    }

    /// Apply a field-index operation to every appendable segment.
    pub fn process_field_index_operation(
        &mut self,
        op_num: SeqNumberType,
        operation: &FieldIndexOperations,
    ) -> (r: CollectionResult<usize>)
        requires
            updater_inv(*old(self)),
        ensures
            updater_inv(*final(self)),
            final(self).segments@.len() == old(self).segments@.len(),
            forall|i: int|
                0 <= i < old(self).segments@.len() ==> (#[trigger] final(self).segments@[i]).0
                    == old(self).segments@[i].0 && final(self).segments@[i].1.config
                    == old(self).segments@[i].1.config && final(self).segments@[i].1.points
                    == old(self).segments@[i].1.points,
            (match *operation {
                FieldIndexOperations::CreateIndex(ref key) => forall|i: int|
                    0 <= i < old(self).segments@.len() && crate::types::spec_is_appendable(
                        (#[trigger] old(self).segments@[i]).1.config,
                    ) && old(self).segments@[i].1.version <= op_num
                        ==> final(self).segments@[i].1.indexed_fields
                        == old(self).segments@[i].1.indexed_fields.insert(key@),
                FieldIndexOperations::DeleteIndex(ref key) => forall|i: int|
                    0 <= i < old(self).segments@.len() && crate::types::spec_is_appendable(
                        (#[trigger] old(self).segments@[i]).1.config,
                    ) && old(self).segments@[i].1.version <= op_num
                        ==> final(self).segments@[i].1.indexed_fields
                        == old(self).segments@[i].1.indexed_fields.remove(key@),
            }),
            forall|i: int|
                0 <= i < old(self).segments@.len() ==> (#[trigger] final(self).segments@[i])
                    .1.version == old(self).segments@[i].1.version
                    || final(self).segments@[i].1.version == op_num,
            sh_points(final(self).segments@) == sh_points(old(self).segments@),
            (match r {
                Ok(n) => n == crate::holder::sh_count_applied(
                    old(self).segments@,
                    op_num,
                    old(self).segments@.len() as int,
                ),
                Err(_) => false,
            }),
    {
        let ghost before = self.segments@;
        let applied = match operation {
            FieldIndexOperations::CreateIndex(key) => self.segments.create_field_index(
                op_num,
                key,
            ),
            FieldIndexOperations::DeleteIndex(key) => self.segments.delete_field_index(
                op_num,
                key,
            ),
        };
        proof {
            if sh_has_appendable(before) {
                let w = choose|i: int|
                    0 <= i < before.len() && crate::types::spec_is_appendable(
                        #[trigger] before[i].1.config,
                    );
                assert(crate::types::spec_is_appendable(self.segments@[w].1.config));
            }
        }
        Ok(applied)
    }

    /// Dispatch one recorded operation.
    pub fn process_operation(
        &mut self,
        op_num: SeqNumberType,
        operation: &CollectionUpdateOperations,
    ) -> (r: CollectionResult<usize>)
        requires
            updater_inv(*old(self)),
            (operation matches CollectionUpdateOperations::PointOperation(op)
                ==> spec_payloads_wf(*op)),
            (operation matches CollectionUpdateOperations::PayloadOperation(
                PayloadOps::SetPayload { payload, .. },
            ) ==> payload.wf()),
        ensures
            updater_inv(*final(self)),
            final(self).segments@.len() == old(self).segments@.len(),
            forall|i: int|
                0 <= i < old(self).segments@.len() ==> (#[trigger] final(self).segments@[i]).0
                    == old(self).segments@[i].0 && final(self).segments@[i].1.config
                    == old(self).segments@[i].1.config,
            forall|i: int|
                0 <= i < old(self).segments@.len() ==> (#[trigger] final(self).segments@[i])
                    .1.version == old(self).segments@[i].1.version
                    || final(self).segments@[i].1.version == op_num,
            ((sh_versions_at_most(old(self).segments@, op_num) && r matches Ok(_)) ==> sh_points(
                final(self).segments@,
            ) == spec_apply_operation(sh_points(old(self).segments@), *operation)),
            ((sh_versions_at_most(old(self).segments@, op_num) && spec_record_total_ok(
                old(self).segments@,
                *operation,
            )) ==> r matches Ok(_)),
    {
        match operation {
            CollectionUpdateOperations::PointOperation(op) => self.process_point_operation(
                op_num,
                op,
            ),
            CollectionUpdateOperations::PayloadOperation(op) => self.process_payload_operation(
                op_num,
                op,
            ),
            CollectionUpdateOperations::FieldIndexOperation(op) => self
                .process_field_index_operation(op_num, op),
        }
    }

    /// Replay recorded operations in order, as recovery does after the
    /// write-ahead log is read back: operations a segment already
    /// applied are skipped by its version gate, fresh ones are
    /// applied, and the resulting live points are the fold of the
    /// records' effects. Stops at the first failing record.
    pub fn replay(&mut self, records: &Vec<(SeqNumberType, CollectionUpdateOperations)>) -> (r:
        CollectionResult<usize>)
        requires
            updater_inv(*old(self)),
            forall|i: int|
                0 <= i < records@.len() ==> (match (#[trigger] records@[i]).1 {
                    CollectionUpdateOperations::PointOperation(op) => spec_payloads_wf(op),
                    CollectionUpdateOperations::PayloadOperation(op) => (op matches
                        PayloadOps::SetPayload { payload, .. } ==> payload.wf()),
                    CollectionUpdateOperations::FieldIndexOperation(_) => true,
                }),
        ensures
            updater_inv(*final(self)),
            final(self).segments@.len() == old(self).segments@.len(),
            forall|i: int|
                0 <= i < old(self).segments@.len() ==> (#[trigger] final(self).segments@[i]).0
                    == old(self).segments@[i].0 && final(self).segments@[i].1.config
                    == old(self).segments@[i].1.config,
            ((spec_records_ascending(records@) && (forall|j: int|
                0 <= j < records@.len() ==> sh_versions_at_most(
                    old(self).segments@,
                    (#[trigger] records@[j]).0,
                )) && r matches Ok(_)) ==> sh_points(final(self).segments@) == spec_replay(
                sh_points(old(self).segments@),
                records@,
                records@.len() as int,
            )),
            ((spec_records_ascending(records@) && (forall|j: int|
                0 <= j < records@.len() ==> sh_versions_at_most(
                    old(self).segments@,
                    (#[trigger] records@[j]).0,
                )) && (forall|j: int|
                0 <= j < records@.len() ==> spec_record_total_ok(
                    old(self).segments@,
                    (#[trigger] records@[j]).1,
                ))) ==> r matches Ok(_)),
    {
        let ghost orig = self.segments@;
        let n = records.len();
        let mut done: usize = 0;
        let mut k: usize = 0;
        while k < n
            invariant
                n == records@.len(),
                0 <= k <= n,
                done <= k,
                updater_inv(*self),
                orig == old(self).segments@,
                self.segments@.len() == orig.len(),
                forall|i: int|
                    0 <= i < records@.len() ==> (match (#[trigger] records@[i]).1 {
                        CollectionUpdateOperations::PointOperation(op) => spec_payloads_wf(op),
                        CollectionUpdateOperations::PayloadOperation(op) => (op matches
                            PayloadOps::SetPayload { payload, .. } ==> payload.wf()),
                        CollectionUpdateOperations::FieldIndexOperation(_) => true,
                    }),
                forall|i: int|
                    0 <= i < orig.len() ==> (#[trigger] self.segments@[i]).0 == orig[i].0
                        && self.segments@[i].1.config == orig[i].1.config,
                (spec_records_ascending(records@) && (forall|j: int|
                    0 <= j < records@.len() ==> sh_versions_at_most(
                        orig,
                        (#[trigger] records@[j]).0,
                    ))) ==> (k < n ==> sh_versions_at_most(self.segments@, records@[k as int].0))
                    && sh_points(self.segments@) == spec_replay(sh_points(orig), records@, k as int),
            decreases n - k,
        {
            let (op_num, op) = &records[k];
            let ghost before = self.segments@;
            let res = self.process_operation(*op_num, op);
            proof {
                let asc = spec_records_ascending(records@);
                let fresh_all = forall|j: int|
                    0 <= j < records@.len() ==> sh_versions_at_most(
                        orig,
                        (#[trigger] records@[j]).0,
                    );
                if asc && fresh_all {
                    assert(sh_versions_at_most(before, records@[k as int].0));
                    if k + 1 < n {
                        assert(records@[k as int].0 <= records@[k + 1].0);
                        assert forall|i: int|
                            0 <= i < self.segments@.len() implies (#[trigger] self.segments@[i])
                            .1.version <= records@[k + 1].0 by {
                            assert(self.segments@[i].1.version == before[i].1.version
                                || self.segments@[i].1.version == records@[k as int].0);
                            assert(before[i].1.version <= records@[k as int].0);
                        }
                    }
                    match &res {
                        Ok(_) => {
                            assert(sh_points(self.segments@) == spec_apply_operation(
                                sh_points(before),
                                records@[k as int].1,
                            ));
                            assert(sh_points(self.segments@) == spec_replay(
                                sh_points(orig),
                                records@,
                                k + 1,
                            ));
                        },
                        Err(_) => {
                            if forall|j: int|
                                0 <= j < records@.len() ==> spec_record_total_ok(
                                    orig,
                                    (#[trigger] records@[j]).1,
                                ) {
                                assert(spec_record_total_ok(orig, records@[k as int].1));
                                match records@[k as int].1 {
                                    CollectionUpdateOperations::PointOperation(pop) => {
                                        match pop {
                                            PointOperations::UpsertPoints(
                                                PointInsertOperations::BatchPoints {
                                                    ids: _,
                                                    vectors,
                                                    payloads: _,
                                                },
                                            ) => {
                                                let gv = vectors@.map_values(
                                                    |v: Vec<VectorElementType>| v@,
                                                );
                                                assert forall|i: int, k2: int|
                                                    0 <= i < before.len() && 0 <= k2
                                                        < gv.len() implies (#[trigger] before[i]
                                                    .1).config.vector_size == #[trigger] gv[
                                                    k2].len() by {
                                                    assert(before[i].1.config == orig[i]
                                                        .1.config);
                                                }
                                                assert(spec_record_total_ok(
                                                    before,
                                                    records@[k as int].1,
                                                ));
                                            },
                                            PointOperations::DeletePoints { .. } => {},
                                        }
                                    },
                                    _ => {},
                                }
                                assert(spec_record_total_ok(before, records@[k as int].1));
                                assert(false);
                            }
                        },
                    }
                }
            }
            match res {
                Ok(_) => {
                    done += 1;
                },
                Err(e) => {
                    return Err(e);
                },
            }
            k += 1;
        }
        Ok(done)
    }
}

} // verus!
