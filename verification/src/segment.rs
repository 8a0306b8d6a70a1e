//! The segment: the atomic unit of storage. A segment holds points
//! (external id, fixed-dimension vector, payload), classification and
//! versioning state, and the set of payload fields marked for indexing.
//!
//! Every mutating operation carries the sequence number of the update
//! it applies. An operation older than the segment's version is
//! skipped (`Ok(false)`); one at the version is re-applied, which is
//! idempotent, so that the points of a batch can share one sequence
//! number. This is what makes replaying the write-ahead log after a
//! crash safe.

use vstd::prelude::*;
use crate::types::{
    SegmentConfig, SegmentState, SegmentType, spec_is_appendable, spec_segment_type_of,
    is_appendable, segment_type_of,
};
use crate::payload::{Filter, PayloadMap, PayloadValueView, matches_filter, spec_matches_filter};
use crate::{PayloadKeyType, PointIdType, SeqNumberType, VectorElementType};

verus! {

/// Error of a segment-level operation.
#[derive(Clone, Debug)]
pub enum OperationError {
    /// The vector's dimension does not match the segment configuration.
    WrongVector { expected_dim: usize, received_dim: usize },
    /// No point with this external id lives in the segment.
    PointIdError { missed_point_id: PointIdType },
    /// A stored value has a type the operation cannot use.
    TypeError { field_name: PayloadKeyType },
    /// The segment cannot serve the operation in its current form.
    ServiceError { description: String },
}

pub type OperationResult<T> = Result<T, OperationError>;

/// One stored point.
#[derive(Clone, Debug)]
pub struct StoredPoint {
    pub id: PointIdType,
    pub vector: Vec<VectorElementType>,
    pub payload: PayloadMap,
}

/// Mathematical value of a stored point: its vector and its payload.
pub struct StoredPointView {
    pub vector: Seq<VectorElementType>,
    pub payload: Map<Seq<char>, PayloadValueView>,
}

/// Mathematical value of a stored point.
pub open spec fn stored_point_view(p: StoredPoint) -> StoredPointView {
    StoredPointView { vector: p.vector@, payload: p.payload@ }
}

/// Mathematical state of a segment.
#[verifier::ext_equal]
pub struct SegmentView {
    /// Sequence number of the last applied operation.
    pub version: SeqNumberType,
    /// Sequence number up to which the state is durable.
    pub persisted_version: SeqNumberType,
    pub config: SegmentConfig,
    /// Live points, keyed by external id.
    pub points: Map<PointIdType, StoredPointView>,
    /// Payload fields marked for indexing.
    pub indexed_fields: Set<Seq<char>>,
}

/// Ids of a point sequence are pairwise distinct.
pub open spec fn unique_ids(s: Seq<StoredPoint>) -> bool {
    forall|i: int, j: int| 0 <= i < j < s.len() ==> s[i].id != s[j].id
}

/// Map described by a point sequence, keyed by external id.
pub open spec fn points_map(s: Seq<StoredPoint>) -> Map<PointIdType, StoredPointView>
    decreases s.len(),
{
    if s.len() == 0 {
        Map::empty()
    } else {
        points_map(s.drop_last()).insert(s.last().id, stored_point_view(s.last()))
    }
}

/// An id is in the map exactly when some entry carries it.
pub proof fn lemma_points_map_dom(s: Seq<StoredPoint>, id: PointIdType)
    ensures
        points_map(s).contains_key(id) <==> exists|i: int| 0 <= i < s.len() && s[i].id == id,
    decreases s.len(),
{
    if s.len() > 0 {
        lemma_points_map_dom(s.drop_last(), id);
        if s.last().id == id {
            assert(s[s.len() - 1].id == id);
        } else if points_map(s).contains_key(id) {
            let i = choose|i: int| 0 <= i < s.drop_last().len() && s.drop_last()[i].id == id;
            assert(s[i].id == id);
        } else if exists|i: int| 0 <= i < s.len() && s[i].id == id {
            let i = choose|i: int| 0 <= i < s.len() && s[i].id == id;
            assert(s.drop_last()[i].id == id);
        }
    }
}

/// Under distinct ids, the map sends each entry's id to its value.
pub proof fn lemma_points_map_value(s: Seq<StoredPoint>, i: int)
    requires
        unique_ids(s),
        0 <= i < s.len(),
    ensures
        points_map(s).contains_key(s[i].id),
        points_map(s)[s[i].id] == stored_point_view(s[i]),
    decreases s.len(),
{
    lemma_points_map_dom(s, s[i].id);
    if i < s.len() - 1 {
        assert(s.drop_last()[i] == s[i]);
        lemma_points_map_value(s.drop_last(), i);
        assert(s.last().id != s[i].id);
    }
}

/// Under distinct ids, the map has as many entries as the sequence.
pub proof fn lemma_points_map_len(s: Seq<StoredPoint>)
    requires
        unique_ids(s),
    ensures
        points_map(s).dom().finite(),
        points_map(s).dom().len() == s.len(),
    decreases s.len(),
{
    if s.len() > 0 {
        lemma_points_map_len(s.drop_last());
        lemma_points_map_dom(s.drop_last(), s.last().id);
    }
}

/// Replacing the entry at one position by one of the same id rewrites
/// the map at that id only.
pub proof fn lemma_points_map_congruence(pre: Seq<StoredPoint>, post: Seq<StoredPoint>, i: int)
    requires
        unique_ids(pre),
        unique_ids(post),
        pre.len() == post.len(),
        0 <= i < pre.len(),
        post[i].id == pre[i].id,
        forall|j: int| 0 <= j < pre.len() && j != i ==> post[j] == pre[j],
    ensures
        points_map(post) == points_map(pre).insert(pre[i].id, stored_point_view(post[i])),
{
    let lhs = points_map(post);
    let rhs = points_map(pre).insert(pre[i].id, stored_point_view(post[i]));
    assert forall|k: PointIdType| lhs.contains_key(k) <==> rhs.contains_key(k) by {
        lemma_points_map_dom(post, k);
        lemma_points_map_dom(pre, k);
        assert forall|j: int| 0 <= j < pre.len() implies post[j].id == pre[j].id by {}
    }
    assert forall|k: PointIdType| lhs.contains_key(k) implies lhs[k] == rhs[k] by {
        lemma_points_map_dom(post, k);
        let j = choose|j: int| 0 <= j < post.len() && post[j].id == k;
        lemma_points_map_value(post, j);
        lemma_points_map_value(pre, j);
        if j != i {
            assert(pre[j].id != pre[i].id);
        }
    }
    assert(lhs =~= rhs);
}

/// Removing the entry at one position removes exactly its id.
pub proof fn lemma_points_map_removed(pre: Seq<StoredPoint>, post: Seq<StoredPoint>, i: int)
    requires
        unique_ids(pre),
        unique_ids(post),
        0 <= i < pre.len(),
        post.len() == pre.len() - 1,
        forall|j: int| 0 <= j < i ==> post[j] == pre[j],
        forall|j: int| i <= j < post.len() ==> post[j] == pre[j + 1],
    ensures
        points_map(post) == points_map(pre).remove(pre[i].id),
{
    let lhs = points_map(post);
    let rhs = points_map(pre).remove(pre[i].id);
    assert forall|k: PointIdType| #[trigger] lhs.contains_key(k) implies rhs.contains_key(k) by {
        lemma_points_map_dom(post, k);
        let j = choose|j: int| 0 <= j < post.len() && post[j].id == k;
        let j0: int = if j < i { j } else { j + 1 };
        assert(pre[j0].id == k);
        lemma_points_map_dom(pre, k);
        assert(pre[j0].id != pre[i].id);
    }
    assert forall|k: PointIdType| #[trigger] rhs.contains_key(k) implies lhs.contains_key(k) by {
        lemma_points_map_dom(pre, k);
        let j = choose|j: int| 0 <= j < pre.len() && pre[j].id == k;
        let j1: int = if j < i { j } else { j - 1 };
        assert(post[j1].id == k);
        lemma_points_map_dom(post, k);
    }
    assert forall|k: PointIdType| lhs.contains_key(k) implies lhs[k] == rhs[k] by {
        lemma_points_map_dom(post, k);
        let j = choose|j: int| 0 <= j < post.len() && post[j].id == k;
        let j0: int = if j < i { j } else { j + 1 };
        lemma_points_map_value(post, j);
        lemma_points_map_value(pre, j0);
    }
    assert(lhs =~= rhs);
}

/// Set of the views of a sequence of field names.
pub open spec fn fields_set(s: Seq<PayloadKeyType>) -> Set<Seq<char>> {
    Set::new(|k: Seq<char>| exists|i: int| 0 <= i < s.len() && s[i]@ == k)
}

/// Structural invariant of a segment view: the classification and the
/// appendable flag are pure functions of the configuration, no more is
/// persisted than applied, and every vector has the configured
/// dimension.
pub open spec fn inv(v: SegmentView) -> bool {
    &&& v.persisted_version <= v.version
    &&& forall|id: PointIdType| #[trigger]
        v.points.contains_key(id) ==> v.points[id].vector.len() == v.config.vector_size
}

/// Mathematical value of an optional payload argument.
pub open spec fn payload_arg_view(p: Option<&PayloadMap>) -> Option<
    Map<Seq<char>, PayloadValueView>,
> {
    match p {
        Some(m) => Some(m@),
        None => None,
    }
}

/// Effect of upserting a point: the vector is replaced; the payload is
/// replaced when one is given, kept when the point exists and none is
/// given, and empty for a new point without one.
pub open spec fn spec_upsert_point(
    v: SegmentView,
    op_num: SeqNumberType,
    id: PointIdType,
    vector: Seq<VectorElementType>,
    payload: Option<Map<Seq<char>, PayloadValueView>>,
) -> SegmentView {
    let kept = if v.points.contains_key(id) {
        v.points[id].payload
    } else {
        Map::empty()
    };
    let new_payload = match payload {
        Some(p) => p,
        None => kept,
    };
    SegmentView {
        version: op_num,
        points: v.points.insert(id, StoredPointView { vector, payload: new_payload }),
        ..v
    }
}

/// Effect of deleting a point.
pub open spec fn spec_delete_point(
    v: SegmentView,
    op_num: SeqNumberType,
    id: PointIdType,
) -> SegmentView {
    SegmentView { version: op_num, points: v.points.remove(id), ..v }
}

/// Effect of merging a payload patch into a point.
pub open spec fn spec_set_payload(
    v: SegmentView,
    op_num: SeqNumberType,
    id: PointIdType,
    patch: Map<Seq<char>, PayloadValueView>,
) -> SegmentView {
    let p = v.points[id];
    SegmentView {
        version: op_num,
        points: v.points.insert(
            id,
            StoredPointView { payload: p.payload.union_prefer_right(patch), ..p },
        ),
        ..v
    }
}

/// A map without the given keys.
pub open spec fn map_without_keys(
    m: Map<Seq<char>, PayloadValueView>,
    keys: Seq<Seq<char>>,
) -> Map<Seq<char>, PayloadValueView> {
    Map::new(|k: Seq<char>| m.contains_key(k) && !keys.contains(k), |k: Seq<char>| m[k])
}

/// Effect of deleting payload keys of a point.
pub open spec fn spec_delete_payload(
    v: SegmentView,
    op_num: SeqNumberType,
    id: PointIdType,
    keys: Seq<Seq<char>>,
) -> SegmentView {
    let p = v.points[id];
    SegmentView {
        version: op_num,
        points: v.points.insert(
            id,
            StoredPointView { payload: map_without_keys(p.payload, keys), ..p },
        ),
        ..v
    }
}

/// Effect of clearing the payload of a point.
pub open spec fn spec_clear_payload(
    v: SegmentView,
    op_num: SeqNumberType,
    id: PointIdType,
) -> SegmentView {
    let p = v.points[id];
    SegmentView {
        version: op_num,
        points: v.points.insert(id, StoredPointView { payload: Map::empty(), ..p }),
        ..v
    }
}

/// Effect of marking a field for indexing.
pub open spec fn spec_create_field_index(
    v: SegmentView,
    op_num: SeqNumberType,
    key: Seq<char>,
) -> SegmentView {
    SegmentView { version: op_num, indexed_fields: v.indexed_fields.insert(key), ..v }
}

/// Effect of dropping a field index.
pub open spec fn spec_delete_field_index(
    v: SegmentView,
    op_num: SeqNumberType,
    key: Seq<char>,
) -> SegmentView {
    SegmentView { version: op_num, indexed_fields: v.indexed_fields.remove(key), ..v }
}

/// Does the point's payload pass the (optional) filter?
pub open spec fn spec_point_passes(p: StoredPointView, filter: Option<&Filter>) -> bool {
    match filter {
        None => true,
        Some(f) => spec_matches_filter(p.payload, *f),
    }
}

/// Description of one payload field in a segment's reported schema.
#[derive(Clone, Copy, Debug, PartialEq, Eq, Structural)]
pub struct PayloadSchemaInfo {
    /// The field is backed by a payload index.
    pub indexed: bool,
}

/// Schema reported by `Segment::info`: the payload fields the segment
/// indexes.
#[derive(Clone, Debug)]
pub struct PayloadSchema {
    pub entries: Vec<(PayloadKeyType, PayloadSchemaInfo)>,
}

impl PayloadSchema {
    /// Is the field in the schema?
    pub fn contains_key(&self, key: &PayloadKeyType) -> (r: bool)
        ensures
            r == exists|i: int| 0 <= i < self.entries@.len() && (#[trigger] self.entries@[i]).0@
                == key@,
    {
        let n = self.entries.len();
        let mut i: usize = 0;
        while i < n
            invariant
                n == self.entries.len(),
                0 <= i <= n,
                forall|j: int| 0 <= j < i ==> (#[trigger] self.entries@[j]).0@ != key@,
            decreases n - i,
        {
            if self.entries[i].0 == *key {
                return true;
            }
            i += 1;
        }
        false
    }

    /// Is the field in the schema and marked indexed?
    pub fn indexed(&self, key: &PayloadKeyType) -> (r: bool)
        ensures
            r == exists|i: int|
                0 <= i < self.entries@.len() && (#[trigger] self.entries@[i]).0@ == key@
                    && self.entries@[i].1.indexed,
    {
        let n = self.entries.len();
        let mut i: usize = 0;
        while i < n
            invariant
                n == self.entries.len(),
                0 <= i <= n,
                forall|j: int|
                    0 <= j < i ==> !((#[trigger] self.entries@[j]).0@ == key@
                        && self.entries@[j].1.indexed),
            decreases n - i,
        {
            if self.entries[i].0 == *key && self.entries[i].1.indexed {
                return true;
            }
            i += 1;
        }
        false
    }
}

/// Aggregated description of a segment.
#[derive(Clone, Debug)]
pub struct SegmentInfo {
    pub segment_type: SegmentType,
    pub num_vectors: usize,
    pub is_appendable: bool,
    pub schema: PayloadSchema,
}

/// A storage segment.
pub struct Segment {
    version: SeqNumberType,
    persisted_version: SeqNumberType,
    segment_config: SegmentConfig,
    segment_type: SegmentType,
    appendable_flag: bool,
    points: Vec<StoredPoint>,
    indexed_fields: Vec<PayloadKeyType>,
}

impl View for Segment {
    type V = SegmentView;

    closed spec fn view(&self) -> SegmentView {
        SegmentView {
            version: self.version,
            persisted_version: self.persisted_version,
            config: self.segment_config,
            points: points_map(self.points@),
            indexed_fields: fields_set(self.indexed_fields@),
        }
    }
}

impl Segment {
    /// Representation invariant: distinct ids and field names, well
    /// formed payloads, derived flags consistent, dimensions respected.
    pub closed spec fn wf(&self) -> bool {
        &&& unique_ids(self.points@)
        &&& forall|i: int| 0 <= i < self.points@.len() ==> (#[trigger] self.points@[i]).payload.wf()
        &&& forall|i: int, j: int|
            0 <= i < j < self.indexed_fields@.len() ==> self.indexed_fields@[i]@
                != self.indexed_fields@[j]@
        &&& self.segment_type == spec_segment_type_of(self.segment_config)
        &&& self.appendable_flag == spec_is_appendable(self.segment_config)
        &&& inv(self@)
    }

    /// The stored points, as a sequence.
    pub(crate) closed spec fn raw_points(&self) -> Seq<StoredPoint> {
        self.points@
    }

    /// A well-formed segment's view satisfies the structural invariant.
    pub proof fn lemma_wf_inv(&self)
        requires
            self.wf(),
        ensures
            inv(self@),
    {
    }

    /// A well-formed segment's view is described by its point sequence.
    pub(crate) proof fn lemma_raw_points(&self)
        requires
            self.wf(),
        ensures
            unique_ids(self.raw_points()),
            points_map(self.raw_points()) == self@.points,
            forall|i: int|
                0 <= i < self.raw_points().len() ==> (#[trigger] self.raw_points()[i]).payload.wf(),
    {
    }

    /// Fresh empty segment with the given version and configuration.
    pub fn create(version: SeqNumberType, config: &SegmentConfig) -> (s: Segment)
        ensures
            s.wf(),
            s@.version == version,
            s@.persisted_version == version,
            s@.config == *config,
            s@.points == Map::<PointIdType, StoredPointView>::empty(),
            s@.indexed_fields == Set::<Seq<char>>::empty(),
    {
        let s = Segment {
            version,
            persisted_version: version,
            segment_config: *config,
            segment_type: segment_type_of(config),
            appendable_flag: is_appendable(config),
            points: Vec::new(),
            indexed_fields: Vec::new(),
        };
        proof {
            assert(s.segment_config == *config);
            assert(s@.indexed_fields =~= Set::<Seq<char>>::empty());
        }
        s
    }

    /// Number of live vectors.
    pub fn vectors_count(&self) -> (r: usize)
        requires
            self.wf(),
        ensures
            r == self@.points.dom().len(),
    {
        proof {
            lemma_points_map_len(self.points@);
        }
        self.points.len()
    }

    /// The segment's classification.
    pub fn segment_type(&self) -> (t: SegmentType)
        requires
            self.wf(),
        ensures
            t == spec_segment_type_of(self@.config),
    {
        self.segment_type
    }

    /// Does the segment accept writes?
    pub fn is_appendable(&self) -> (r: bool)
        requires
            self.wf(),
        ensures
            r == spec_is_appendable(self@.config),
    {
        self.appendable_flag
    }

    /// Does a live point carry this external id?
    pub fn has_point(&self, point_id: PointIdType) -> (r: bool)
        requires
            self.wf(),
        ensures
            r == self@.points.contains_key(point_id),
    {
        let r = self.find_point_index(point_id);
        proof {
            lemma_points_map_dom(self.points@, point_id);
        }
        r.is_some()
    }

    /// The payload fields marked for indexing.
    pub fn get_indexed_fields(&self) -> (r: Vec<PayloadKeyType>)
        requires
            self.wf(),
        ensures
            forall|j: int| 0 <= j < r@.len() ==> self@.indexed_fields.contains(#[trigger] r@[j]@),
            forall|k: Seq<char>| self@.indexed_fields.contains(k) ==> exists|j: int|
                0 <= j < r@.len() && r@[j]@ == k,
            r@.len() == 0 <==> self@.indexed_fields =~= Set::<Seq<char>>::empty(),
    {
        let n = self.indexed_fields.len();
        let mut r: Vec<PayloadKeyType> = Vec::new();
        let mut i: usize = 0;
        while i < n
            invariant
                n == self.indexed_fields.len(),
                0 <= i <= n,
                r@.len() == i,
                forall|j: int| 0 <= j < i ==> r@[j]@ == self.indexed_fields@[j]@,
            decreases n - i,
        {
            r.push(self.indexed_fields[i].clone());
            i += 1;
        }
        proof {
            assert forall|k: Seq<char>| self@.indexed_fields.contains(k) implies exists|j: int|
                0 <= j < r@.len() && r@[j]@ == k by {
                let j = choose|j: int|
                    0 <= j < self.indexed_fields@.len() && self.indexed_fields@[j]@ == k;
                assert(r@[j]@ == k);
            }
            if r@.len() > 0 {
                assert(self@.indexed_fields.contains(r@[0]@));
            }
        }
        r
    }

    /// Borrow the vector of a live point.
    pub fn vector(&self, point_id: PointIdType) -> (r: OperationResult<&Vec<VectorElementType>>)
        requires
            self.wf(),
        ensures
            match r {
                Ok(v) => self@.points.contains_key(point_id) && v@ == self@.points[point_id].vector,
                Err(e) => !self@.points.contains_key(point_id) && (e matches
                    OperationError::PointIdError { missed_point_id } && missed_point_id
                    == point_id),
            },
    {
        proof {
            lemma_points_map_dom(self.points@, point_id);
        }
        match self.find_point_index(point_id) {
            Some(i) => {
                proof {
                    lemma_points_map_value(self.points@, i as int);
                }
                Ok(&self.points[i].vector)
            },
            None => Err(OperationError::PointIdError { missed_point_id: point_id }),
        }
    }

    /// The payload of a live point, as a copy.
    pub fn payload(&self, point_id: PointIdType) -> (r: OperationResult<PayloadMap>)
        requires
            self.wf(),
        ensures
            match r {
                Ok(p) => p.wf() && self@.points.contains_key(point_id) && p@
                    == self@.points[point_id].payload,
                Err(e) => !self@.points.contains_key(point_id) && (e matches
                    OperationError::PointIdError { missed_point_id } && missed_point_id
                    == point_id),
            },
    {
        proof {
            lemma_points_map_dom(self.points@, point_id);
        }
        match self.find_point_index(point_id) {
            Some(i) => {
                proof {
                    lemma_points_map_value(self.points@, i as int);
                }
                Ok(self.points[i].payload.duplicate())
            },
            None => Err(OperationError::PointIdError { missed_point_id: point_id }),
        }
    }

    /// Drop a point without the version and appendability gates; the
    /// version still advances to the operation. Used when an update
    /// moves a point to another segment: the old owner must give it up
    /// whatever its form, so that no id stays live in two segments.
    pub(crate) fn evict_point(&mut self, op_num: SeqNumberType, point_id: PointIdType)
        requires
            old(self).wf(),
        ensures
            final(self).wf(),
            final(self)@ == (SegmentView {
                version: if op_num > old(self)@.version {
                    op_num
                } else {
                    old(self)@.version
                },
                points: old(self)@.points.remove(point_id),
                ..old(self)@
            }),
    {
        proof {
            lemma_points_map_dom(self.points@, point_id);
        }
        match self.find_point_index(point_id) {
            None => {
                proof {
                    assert(old(self)@.points.remove(point_id) =~= old(self)@.points);
                }
            },
            Some(i) => {
                let ghost pre = self.points@;
                self.points.remove(i);
                proof {
                    assert forall|p: int, q: int|
                        0 <= p < q < self.points@.len() implies self.points@[p].id
                        != self.points@[q].id by {
                        let p0: int = if p < i { p } else { p + 1 };
                        let q0: int = if q < i { q } else { q + 1 };
                        assert(pre[p0].id != pre[q0].id);
                    }
                    lemma_points_map_removed(pre, self.points@, i as int);
                }
            },
        }
        if op_num > self.version {
            self.version = op_num;
        }
        proof {
            assert(self@ =~= (SegmentView {
                version: if op_num > old(self)@.version {
                    op_num
                } else {
                    old(self)@.version
                },
                points: old(self)@.points.remove(point_id),
                ..old(self)@
            }));
        }
    }

    /// Ids of the live points that pass the filter; without a filter,
    /// all live points. Each id occurs once.
    pub fn read_filtered(&self, filter: Option<&Filter>) -> (r: Vec<PointIdType>)
        requires
            self.wf(),
        ensures
            forall|i: int, j: int| 0 <= i < j < r@.len() ==> r@[i] != r@[j],
            forall|id: PointIdType| #[trigger]
                r@.contains(id) <==> self@.points.contains_key(id) && spec_point_passes(
                    self@.points[id],
                    filter,
                ),
    {
        let n = self.points.len();
        let mut r: Vec<PointIdType> = Vec::new();
        let mut i: usize = 0;
        while i < n
            invariant
                n == self.points@.len(),
                0 <= i <= n,
                self.wf(),
                forall|p: int, q: int| 0 <= p < q < r@.len() ==> r@[p] != r@[q],
                forall|j: int| #![trigger r@.contains(self.points@[j].id)]
                    0 <= j < i ==> (r@.contains(self.points@[j].id) <==> spec_point_passes(
                        stored_point_view(self.points@[j]),
                        filter,
                    )),
                forall|p: int| 0 <= p < r@.len() ==> exists|j: int|
                    0 <= j < i && (#[trigger] r@[p]) == self.points@[j].id,
            decreases n - i,
        {
            let passes = match filter {
                None => true,
                Some(f) => matches_filter(&self.points[i].payload, f),
            };
            let ghost pre = r@;
            if passes {
                let id = self.points[i].id;
                r.push(id);
            }
            proof {
                assert forall|p: int, q: int| 0 <= p < q < r@.len() implies r@[p] != r@[q] by {
                    if q == r@.len() - 1 && r@.len() > pre.len() {
                        let j = choose|j: int| 0 <= j < i && pre[p] == self.points@[j].id;
                        assert(self.points@[j].id != self.points@[i as int].id);
                    }
                }
                assert forall|j: int| #![trigger r@.contains(self.points@[j].id)]
                    0 <= j < i + 1 implies (r@.contains(self.points@[j].id) <==> spec_point_passes(
                    stored_point_view(self.points@[j]),
                    filter,
                )) by {
                    if j < i {
                        if pre.contains(self.points@[j].id) {
                            let p = choose|p: int| 0 <= p < pre.len() && pre[p] == self.points@[j].id;
                            assert(r@[p] == self.points@[j].id);
                        }
                        if r@.contains(self.points@[j].id) {
                            let p = choose|p: int| 0 <= p < r@.len() && r@[p] == self.points@[j].id;
                            if p < pre.len() {
                                assert(pre[p] == self.points@[j].id);
                            } else {
                                assert(self.points@[i as int].id == self.points@[j].id);
                            }
                        }
                    } else {
                        if r@.len() > pre.len() {
                            assert(r@[r@.len() - 1] == self.points@[i as int].id);
                        } else {
                            if r@.contains(self.points@[i as int].id) {
                                let p = choose|p: int|
                                    0 <= p < r@.len() && r@[p] == self.points@[i as int].id;
                                let j0 = choose|j0: int|
                                    0 <= j0 < i && r@[p] == self.points@[j0].id;
                                assert(self.points@[j0].id != self.points@[i as int].id);
                            }
                        }
                    }
                }
            }
            i += 1;
        }
        proof {
            assert forall|id: PointIdType| #[trigger] r@.contains(id) implies self@
                .points.contains_key(id) && spec_point_passes(self@.points[id], filter) by {
                let p = choose|p: int| 0 <= p < r@.len() && r@[p] == id;
                let j = choose|j: int| 0 <= j < n && r@[p] == self.points@[j].id;
                lemma_points_map_value(self.points@, j);
            }
            assert forall|id: PointIdType| self@.points.contains_key(id) && spec_point_passes(
                self@.points[id],
                filter,
            ) implies #[trigger] r@.contains(id) by {
                lemma_points_map_dom(self.points@, id);
                let j = choose|j: int| 0 <= j < self.points@.len() && self.points@[j].id == id;
                lemma_points_map_value(self.points@, j);
            }
        }
        r
    }

    /// The persisted state of the segment.
    pub fn get_state(&self) -> (r: SegmentState)
        requires
            self.wf(),
        ensures
            r.version == self@.version,
            r.config == self@.config,
    {
        SegmentState { version: self.version, config: self.segment_config }
    }

    /// Sequence number of the last applied operation.
    pub fn version(&self) -> (r: SeqNumberType)
        requires
            self.wf(),
        ensures
            r == self@.version,
    {
        self.version
    }

    /// The segment's configuration.
    pub fn config(&self) -> (c: SegmentConfig)
        requires
            self.wf(),
        ensures
            c == self@.config,
    {
        self.segment_config
    }

    /// Make the applied state durable; returns the persisted version.
    pub fn flush(&mut self) -> (r: SeqNumberType)
        requires
            old(self).wf(),
        ensures
            final(self).wf(),
            r == old(self)@.version,
            final(self)@ == (SegmentView { persisted_version: old(self)@.version, ..old(self)@ }),
    {
        self.persisted_version = self.version;
        self.version
    }

    /// Aggregated description: classification, live vector count,
    /// appendability, and the indexed fields as the reported schema.
    pub fn info(&self) -> (r: SegmentInfo)
        requires
            self.wf(),
        ensures
            r.segment_type == spec_segment_type_of(self@.config),
            r.num_vectors == self@.points.dom().len(),
            r.is_appendable == spec_is_appendable(self@.config),
            forall|i: int| 0 <= i < r.schema.entries@.len() ==> self@.indexed_fields.contains(
                (#[trigger] r.schema.entries@[i]).0@,
            ),
            forall|k: Seq<char>| self@.indexed_fields.contains(k) ==> exists|i: int|
                0 <= i < r.schema.entries@.len() && (#[trigger] r.schema.entries@[i]).0@ == k,
            forall|i: int| 0 <= i < r.schema.entries@.len() ==> (#[trigger] r.schema.entries@[i]).1
                == (PayloadSchemaInfo { indexed: true }),
    {
        let fields = self.get_indexed_fields();
        let mut entries: Vec<(PayloadKeyType, PayloadSchemaInfo)> = Vec::new();
        let n = fields.len();
        let mut i: usize = 0;
        while i < n
            invariant
                n == fields.len(),
                0 <= i <= n,
                entries@.len() == i,
                forall|j: int| 0 <= j < i ==> (#[trigger] entries@[j]).0@ == fields@[j]@
                    && entries@[j].1 == (PayloadSchemaInfo { indexed: true }),
            decreases n - i,
        {
            entries.push((fields[i].clone(), PayloadSchemaInfo { indexed: true }));
            i += 1;
        }
        let count = self.vectors_count();
        let r = SegmentInfo {
            segment_type: self.segment_type,
            num_vectors: count,
            is_appendable: self.appendable_flag,
            schema: PayloadSchema { entries },
        };
        proof {
            assert forall|k: Seq<char>| self@.indexed_fields.contains(k) implies exists|i: int|
                0 <= i < r.schema.entries@.len() && (#[trigger] r.schema.entries@[i]).0@ == k by {
                let j = choose|j: int| 0 <= j < fields@.len() && fields@[j]@ == k;
                assert(r.schema.entries@[j].0@ == k);
            }
            assert forall|j: int| 0 <= j < r.schema.entries@.len() implies self@
                .indexed_fields.contains((#[trigger] r.schema.entries@[j]).0@) by {
                assert(self@.indexed_fields.contains(fields@[j]@));
            }
        }
        r
    }

    /// Insert a point or replace it. The vector is replaced; the
    /// payload is replaced when one is given, kept for an existing
    /// point without one, and empty for a new point without one.
    pub fn upsert_point(
        &mut self,
        op_num: SeqNumberType,
        point_id: PointIdType,
        vector: &Vec<VectorElementType>,
        payload: Option<&PayloadMap>,
    ) -> (r: OperationResult<bool>)
        requires
            old(self).wf(),
            (payload matches Some(p) ==> p.wf()),
        ensures
            final(self).wf(),
            (match r {
                Ok(false) => op_num < old(self)@.version && final(self)@ == old(self)@,
                Ok(true) => {
                    &&& op_num >= old(self)@.version
                    &&& spec_is_appendable(old(self)@.config)
                    &&& vector@.len() == old(self)@.config.vector_size
                    &&& final(self)@ == spec_upsert_point(
                        old(self)@,
                        op_num,
                        point_id,
                        vector@,
                        payload_arg_view(payload),
                    )
                },
                Err(OperationError::ServiceError { .. }) => {
                    &&& op_num >= old(self)@.version
                    &&& !spec_is_appendable(old(self)@.config)
                    &&& final(self)@ == old(self)@
                },
                Err(OperationError::WrongVector { expected_dim, received_dim }) => {
                    &&& op_num >= old(self)@.version
                    &&& spec_is_appendable(old(self)@.config)
                    &&& vector@.len() != old(self)@.config.vector_size
                    &&& expected_dim == old(self)@.config.vector_size
                    &&& received_dim == vector@.len()
                    &&& final(self)@ == old(self)@
                },
                Err(_) => false,
            }),
    {
        if op_num < self.version {
            return Ok(false);
        }
        if !self.appendable_flag {
            return Err(
                OperationError::ServiceError {
                    description: "segment is not appendable".to_owned(),
                },
            );
        }
        if vector.len() != self.segment_config.vector_size {
            return Err(
                OperationError::WrongVector {
                    expected_dim: self.segment_config.vector_size,
                    received_dim: vector.len(),
                },
            );
        }
        let new_vector = crate::payload::copy_elems(vector);
        proof {
            lemma_points_map_dom(self.points@, point_id);
        }
        match self.find_point_index(point_id) {
            Some(i) => {
                proof {
                    lemma_points_map_value(self.points@, i as int);
                }
                let new_payload = match payload {
                    Some(p) => p.duplicate(),
                    None => self.points[i].payload.duplicate(),
                };
                let ghost pre = self.points@;
                self.points[i] = StoredPoint { id: point_id, vector: new_vector, payload: new_payload };
                self.version = op_num;
                proof {
                    assert forall|p: int, q: int|
                        0 <= p < q < self.points@.len() implies self.points@[p].id
                        != self.points@[q].id by {
                        assert(pre[p].id != pre[q].id);
                    }
                    lemma_points_map_congruence(pre, self.points@, i as int);
                    assert(self@ =~= spec_upsert_point(
                        old(self)@,
                        op_num,
                        point_id,
                        vector@,
                        payload_arg_view(payload),
                    ));
                }
                Ok(true)
            },
            None => {
                let new_payload = match payload {
                    Some(p) => p.duplicate(),
                    None => PayloadMap::new(),
                };
                let ghost pre = self.points@;
                self.points.push(StoredPoint { id: point_id, vector: new_vector, payload: new_payload });
                self.version = op_num;
                proof {
                    assert(self.points@.drop_last() =~= pre);
                    assert(self@ =~= spec_upsert_point(
                        old(self)@,
                        op_num,
                        point_id,
                        vector@,
                        payload_arg_view(payload),
                    ));
                }
                Ok(true)
            },
        }
    }

    /// Remove a point. Deletion is the one mutation every storage form
    /// serves, whatever its appendability: an update that moves a point
    /// to another segment must be able to clear the old owner.
    pub fn delete_point(&mut self, op_num: SeqNumberType, point_id: PointIdType) -> (r:
        OperationResult<bool>)
        requires
            old(self).wf(),
        ensures
            final(self).wf(),
            (match r {
                Ok(false) => op_num < old(self)@.version && final(self)@ == old(self)@,
                Ok(true) => {
                    &&& op_num >= old(self)@.version
                    &&& old(self)@.points.contains_key(point_id)
                    &&& final(self)@ == spec_delete_point(old(self)@, op_num, point_id)
                },
                Err(OperationError::PointIdError { missed_point_id }) => {
                    &&& op_num >= old(self)@.version
                    &&& !old(self)@.points.contains_key(point_id)
                    &&& missed_point_id == point_id
                    &&& final(self)@ == old(self)@
                },
                Err(_) => false,
            }),
    {
        if op_num < self.version {
            return Ok(false);
        }
        proof {
            lemma_points_map_dom(self.points@, point_id);
        }
        match self.find_point_index(point_id) {
            None => Err(OperationError::PointIdError { missed_point_id: point_id }),
            Some(i) => {
                let ghost pre = self.points@;
                self.points.remove(i);
                self.version = op_num;
                proof {
                    assert forall|p: int, q: int|
                        0 <= p < q < self.points@.len() implies self.points@[p].id
                        != self.points@[q].id by {
                        let p0: int = if p < i { p } else { p + 1 };
                        let q0: int = if q < i { q } else { q + 1 };
                        assert(pre[p0].id != pre[q0].id);
                    }
                    lemma_points_map_removed(pre, self.points@, i as int);
                    assert(self@ =~= spec_delete_point(old(self)@, op_num, point_id));
                }
                Ok(true)
            },
        }
    }

    /// Merge a payload patch into a point; patch values win on shared
    /// keys.
    pub fn set_payload(
        &mut self,
        op_num: SeqNumberType,
        point_id: PointIdType,
        patch: &PayloadMap,
    ) -> (r: OperationResult<bool>)
        requires
            old(self).wf(),
            patch.wf(),
        ensures
            final(self).wf(),
            (match r {
                Ok(false) => op_num < old(self)@.version && final(self)@ == old(self)@,
                Ok(true) => {
                    &&& op_num >= old(self)@.version
                    &&& spec_is_appendable(old(self)@.config)
                    &&& old(self)@.points.contains_key(point_id)
                    &&& final(self)@ == spec_set_payload(old(self)@, op_num, point_id, patch@)
                },
                Err(OperationError::ServiceError { .. }) => {
                    &&& op_num >= old(self)@.version
                    &&& !spec_is_appendable(old(self)@.config)
                    &&& final(self)@ == old(self)@
                },
                Err(OperationError::PointIdError { missed_point_id }) => {
                    &&& op_num >= old(self)@.version
                    &&& spec_is_appendable(old(self)@.config)
                    &&& !old(self)@.points.contains_key(point_id)
                    &&& missed_point_id == point_id
                    &&& final(self)@ == old(self)@
                },
                Err(_) => false,
            }),
    {
        if op_num < self.version {
            return Ok(false);
        }
        if !self.appendable_flag {
            return Err(
                OperationError::ServiceError {
                    description: "segment is not appendable".to_owned(),
                },
            );
        }
        proof {
            lemma_points_map_dom(self.points@, point_id);
        }
        match self.find_point_index(point_id) {
            None => Err(OperationError::PointIdError { missed_point_id: point_id }),
            Some(i) => {
                proof {
                    lemma_points_map_value(self.points@, i as int);
                }
                let mut merged = self.points[i].payload.duplicate();
                merged.merge(patch);
                let new_vector = crate::payload::copy_elems(&self.points[i].vector);
                let ghost pre = self.points@;
                self.points[i] = StoredPoint { id: point_id, vector: new_vector, payload: merged };
                self.version = op_num;
                proof {
                    assert forall|p: int, q: int|
                        0 <= p < q < self.points@.len() implies self.points@[p].id
                        != self.points@[q].id by {
                        assert(pre[p].id != pre[q].id);
                    }
                    lemma_points_map_congruence(pre, self.points@, i as int);
                    assert(self@ =~= spec_set_payload(old(self)@, op_num, point_id, patch@));
                }
                Ok(true)
            },
        }
    }

    /// Remove the given keys of a point's payload.
    pub fn delete_payload(
        &mut self,
        op_num: SeqNumberType,
        point_id: PointIdType,
        keys: &Vec<PayloadKeyType>,
    ) -> (r: OperationResult<bool>)
        requires
            old(self).wf(),
        ensures
            final(self).wf(),
            (match r {
                Ok(false) => op_num < old(self)@.version && final(self)@ == old(self)@,
                Ok(true) => {
                    &&& op_num >= old(self)@.version
                    &&& spec_is_appendable(old(self)@.config)
                    &&& old(self)@.points.contains_key(point_id)
                    &&& final(self)@ == spec_delete_payload(
                        old(self)@,
                        op_num,
                        point_id,
                        keys@.map_values(|s: String| s@),
                    )
                },
                Err(OperationError::ServiceError { .. }) => {
                    &&& op_num >= old(self)@.version
                    &&& !spec_is_appendable(old(self)@.config)
                    &&& final(self)@ == old(self)@
                },
                Err(OperationError::PointIdError { missed_point_id }) => {
                    &&& op_num >= old(self)@.version
                    &&& spec_is_appendable(old(self)@.config)
                    &&& !old(self)@.points.contains_key(point_id)
                    &&& missed_point_id == point_id
                    &&& final(self)@ == old(self)@
                },
                Err(_) => false,
            }),
    {
        if op_num < self.version {
            return Ok(false);
        }
        if !self.appendable_flag {
            return Err(
                OperationError::ServiceError {
                    description: "segment is not appendable".to_owned(),
                },
            );
        }
        proof {
            lemma_points_map_dom(self.points@, point_id);
        }
        match self.find_point_index(point_id) {
            None => Err(OperationError::PointIdError { missed_point_id: point_id }),
            Some(i) => {
                proof {
                    lemma_points_map_value(self.points@, i as int);
                }
                let ghost kv = keys@.map_values(|s: String| s@);
                let ghost orig = self.points@[i as int].payload@;
                let mut trimmed = self.points[i].payload.duplicate();
                let n_keys = keys.len();
                let mut k: usize = 0;
                while k < n_keys
                    invariant
                        n_keys == keys.len(),
                        0 <= k <= n_keys,
                        kv == keys@.map_values(|s: String| s@),
                        trimmed.wf(),
                        trimmed@ == map_without_keys(orig, kv.take(k as int)),
                    decreases n_keys - k,
                {
                    trimmed.remove(&keys[k]);
                    proof {
                        assert(kv.take(k + 1) =~= kv.take(k as int).push(kv[k as int]));
                        assert forall|x: Seq<char>|
                            kv.take(k + 1).contains(x) <==> kv.take(k as int).contains(x) || x
                                == kv[k as int] by {
                            let t1 = kv.take(k + 1);
                            let t0 = kv.take(k as int);
                            if t1.contains(x) {
                                let j = choose|j: int| 0 <= j < t1.len() && t1[j] == x;
                                if j < k {
                                    assert(t0[j] == x);
                                }
                            }
                            if t0.contains(x) {
                                let j = choose|j: int| 0 <= j < t0.len() && t0[j] == x;
                                assert(t1[j] == x);
                            }
                            if x == kv[k as int] {
                                assert(t1[k as int] == x);
                            }
                        }
                        assert(trimmed@ =~= map_without_keys(orig, kv.take(k + 1)));
                    }
                    k += 1;
                }
                proof {
                    assert(kv.take(n_keys as int) =~= kv);
                }
                let new_vector = crate::payload::copy_elems(&self.points[i].vector);
                let ghost pre = self.points@;
                self.points[i] = StoredPoint { id: point_id, vector: new_vector, payload: trimmed };
                self.version = op_num;
                proof {
                    assert forall|p: int, q: int|
                        0 <= p < q < self.points@.len() implies self.points@[p].id
                        != self.points@[q].id by {
                        assert(pre[p].id != pre[q].id);
                    }
                    lemma_points_map_congruence(pre, self.points@, i as int);
                    assert(self@ =~= spec_delete_payload(old(self)@, op_num, point_id, kv));
                }
                Ok(true)
            },
        }
    }

    /// Clear the payload of a point.
    pub fn clear_payload(&mut self, op_num: SeqNumberType, point_id: PointIdType) -> (r:
        OperationResult<bool>)
        requires
            old(self).wf(),
        ensures
            final(self).wf(),
            (match r {
                Ok(false) => op_num < old(self)@.version && final(self)@ == old(self)@,
                Ok(true) => {
                    &&& op_num >= old(self)@.version
                    &&& spec_is_appendable(old(self)@.config)
                    &&& old(self)@.points.contains_key(point_id)
                    &&& final(self)@ == spec_clear_payload(old(self)@, op_num, point_id)
                },
                Err(OperationError::ServiceError { .. }) => {
                    &&& op_num >= old(self)@.version
                    &&& !spec_is_appendable(old(self)@.config)
                    &&& final(self)@ == old(self)@
                },
                Err(OperationError::PointIdError { missed_point_id }) => {
                    &&& op_num >= old(self)@.version
                    &&& spec_is_appendable(old(self)@.config)
                    &&& !old(self)@.points.contains_key(point_id)
                    &&& missed_point_id == point_id
                    &&& final(self)@ == old(self)@
                },
                Err(_) => false,
            }),
    {
        if op_num < self.version {
            return Ok(false);
        }
        if !self.appendable_flag {
            return Err(
                OperationError::ServiceError {
                    description: "segment is not appendable".to_owned(),
                },
            );
        }
        proof {
            lemma_points_map_dom(self.points@, point_id);
        }
        match self.find_point_index(point_id) {
            None => Err(OperationError::PointIdError { missed_point_id: point_id }),
            Some(i) => {
                proof {
                    lemma_points_map_value(self.points@, i as int);
                }
                let new_vector = crate::payload::copy_elems(&self.points[i].vector);
                let ghost pre = self.points@;
                self.points[i] = StoredPoint {
                    id: point_id,
                    vector: new_vector,
                    payload: PayloadMap::new(),
                };
                self.version = op_num;
                proof {
                    assert forall|p: int, q: int|
                        0 <= p < q < self.points@.len() implies self.points@[p].id
                        != self.points@[q].id by {
                        assert(pre[p].id != pre[q].id);
                    }
                    lemma_points_map_congruence(pre, self.points@, i as int);
                    assert(self@ =~= spec_clear_payload(old(self)@, op_num, point_id));
                }
                Ok(true)
            },
        }
    }

    /// Mark a payload field for indexing.
    pub fn create_field_index(&mut self, op_num: SeqNumberType, key: &PayloadKeyType) -> (r:
        OperationResult<bool>)
        requires
            old(self).wf(),
        ensures
            final(self).wf(),
            (match r {
                Ok(false) => op_num < old(self)@.version && final(self)@ == old(self)@,
                Ok(true) => {
                    &&& op_num >= old(self)@.version
                    &&& spec_is_appendable(old(self)@.config)
                    &&& final(self)@ == spec_create_field_index(old(self)@, op_num, key@)
                },
                Err(OperationError::ServiceError { .. }) => {
                    &&& op_num >= old(self)@.version
                    &&& !spec_is_appendable(old(self)@.config)
                    &&& final(self)@ == old(self)@
                },
                Err(_) => false,
            }),
    {
        if op_num < self.version {
            return Ok(false);
        }
        if !self.appendable_flag {
            return Err(
                OperationError::ServiceError {
                    description: "segment is not appendable".to_owned(),
                },
            );
        }
        let ghost pre = self.indexed_fields@;
        match self.find_field_index(key) {
            Some(i) => {
                proof {
                    assert(pre[i as int]@ == key@);
                    assert(fields_set(pre).contains(key@));
                    assert(self@.indexed_fields =~= old(self)@.indexed_fields.insert(key@));
                }
            },
            None => {
                self.indexed_fields.push(key.clone());
                proof {
                    let post = self.indexed_fields@;
                    let target = old(self)@.indexed_fields.insert(key@);
                    assert forall|k: Seq<char>|
                        fields_set(post).contains(k) implies target.contains(k) by {
                        let j = choose|j: int| 0 <= j < post.len() && post[j]@ == k;
                        if j < pre.len() {
                            assert(pre[j]@ == k);
                        } else {
                            assert(post[j]@ == key@);
                        }
                    }
                    assert forall|k: Seq<char>|
                        target.contains(k) implies fields_set(post).contains(k) by {
                        if k == key@ {
                            assert(post[pre.len() as int]@ == k);
                        } else {
                            let j = choose|j: int| 0 <= j < pre.len() && pre[j]@ == k;
                            assert(post[j]@ == k);
                        }
                    }
                    assert(self@.indexed_fields =~= target);
                }
            },
        }
        self.version = op_num;
        proof {
            assert(self@ =~= spec_create_field_index(old(self)@, op_num, key@));
        }
        Ok(true)
    }

    /// Drop the index mark of a payload field.
    pub fn delete_field_index(&mut self, op_num: SeqNumberType, key: &PayloadKeyType) -> (r:
        OperationResult<bool>)
        requires
            old(self).wf(),
        ensures
            final(self).wf(),
            (match r {
                Ok(false) => op_num < old(self)@.version && final(self)@ == old(self)@,
                Ok(true) => {
                    &&& op_num >= old(self)@.version
                    &&& spec_is_appendable(old(self)@.config)
                    &&& final(self)@ == spec_delete_field_index(old(self)@, op_num, key@)
                },
                Err(OperationError::ServiceError { .. }) => {
                    &&& op_num >= old(self)@.version
                    &&& !spec_is_appendable(old(self)@.config)
                    &&& final(self)@ == old(self)@
                },
                Err(_) => false,
            }),
    {
        if op_num < self.version {
            return Ok(false);
        }
        if !self.appendable_flag {
            return Err(
                OperationError::ServiceError {
                    description: "segment is not appendable".to_owned(),
                },
            );
        }
        let ghost pre = self.indexed_fields@;
        match self.find_field_index(key) {
            None => {},
            Some(i) => {
                self.indexed_fields.remove(i);
                proof {
                    assert forall|p: int, q: int|
                        0 <= p < q < self.indexed_fields@.len() implies self.indexed_fields@[p]@
                        != self.indexed_fields@[q]@ by {
                        let p0: int = if p < i { p } else { p + 1 };
                        let q0: int = if q < i { q } else { q + 1 };
                        assert(pre[p0]@ != pre[q0]@);
                    }
                    assert forall|k: Seq<char>|
                        fields_set(self.indexed_fields@).contains(k) implies fields_set(
                        pre,
                    ).contains(k) && k != key@ by {
                        let j = choose|j: int|
                            0 <= j < self.indexed_fields@.len() && self.indexed_fields@[j]@ == k;
                        let j0: int = if j < i { j } else { j + 1 };
                        assert(pre[j0]@ == k);
                        assert(pre[j0]@ != pre[i as int]@);
                    }
                    assert forall|k: Seq<char>|
                        fields_set(pre).contains(k) && k != key@ implies fields_set(
                        self.indexed_fields@,
                    ).contains(k) by {
                        let j = choose|j: int| 0 <= j < pre.len() && pre[j]@ == k;
                        let j1: int = if j < i { j } else { j - 1 };
                        assert(self.indexed_fields@[j1]@ == k);
                    }
                }
            },
        }
        self.version = op_num;
        proof {
            assert(self@.indexed_fields =~= old(self)@.indexed_fields.remove(key@));
            assert(self@ =~= spec_delete_field_index(old(self)@, op_num, key@));
        }
        Ok(true)
    }

    /// Append a point during construction, bypassing the version and
    /// appendability gates: for the optimizer streaming live points
    /// into a replacement, and for rebuilding a segment of any form
    /// from persisted content.
    pub fn ingest_point(&mut self, point: StoredPoint)
        requires
            old(self).wf(),
            point.payload.wf(),
            point.vector@.len() == old(self)@.config.vector_size,
            !old(self)@.points.contains_key(point.id),
        ensures
            final(self).wf(),
            final(self)@ == (SegmentView {
                points: old(self)@.points.insert(point.id, stored_point_view(point)),
                ..old(self)@
            }),
    {
        proof {
            lemma_points_map_dom(self.points@, point.id);
        }
        let ghost pre = self.points@;
        self.points.push(point);
        proof {
            assert(self.points@.drop_last() =~= pre);
            assert(self@ =~= (SegmentView {
                points: old(self)@.points.insert(point.id, stored_point_view(point)),
                ..old(self)@
            }));
        }
    }

    /// Mark a field for indexing during construction, bypassing the
    /// version and appendability gates: for the optimizer carrying the
    /// candidates' indexed fields into a replacement, and for
    /// rebuilding a segment from persisted content.
    pub fn mark_indexed(&mut self, key: PayloadKeyType)
        requires
            old(self).wf(),
        ensures
            final(self).wf(),
            final(self)@ == (SegmentView {
                indexed_fields: old(self)@.indexed_fields.insert(key@),
                ..old(self)@
            }),
    {
        let ghost pre = self.indexed_fields@;
        match self.find_field_index(&key) {
            Some(i) => {
                proof {
                    assert(pre[i as int]@ == key@);
                    assert(fields_set(pre).contains(key@));
                    assert(self@.indexed_fields =~= old(self)@.indexed_fields.insert(key@));
                }
            },
            None => {
                self.indexed_fields.push(key);
                proof {
                    let post = self.indexed_fields@;
                    let target = old(self)@.indexed_fields.insert(key@);
                    assert forall|k: Seq<char>|
                        fields_set(post).contains(k) implies target.contains(k) by {
                        let j = choose|j: int| 0 <= j < post.len() && post[j]@ == k;
                        if j < pre.len() {
                            assert(pre[j]@ == k);
                        } else {
                            assert(post[j]@ == key@);
                        }
                    }
                    assert forall|k: Seq<char>|
                        target.contains(k) implies fields_set(post).contains(k) by {
                        if k == key@ {
                            assert(post[pre.len() as int]@ == k);
                        } else {
                            let j = choose|j: int| 0 <= j < pre.len() && pre[j]@ == k;
                            assert(post[j]@ == k);
                        }
                    }
                    assert(self@.indexed_fields =~= target);
                }
            },
        }
        proof {
            assert(self@ =~= (SegmentView {
                indexed_fields: old(self)@.indexed_fields.insert(key@),
                ..old(self)@
            }));
        }
    }

    /// Number of stored entries.
    pub(crate) fn raw_len(&self) -> (r: usize)
        ensures
            r == self.raw_points().len(),
    {
        self.points.len()
    }

    /// Borrow the stored entry at a position.
    pub(crate) fn raw_at(&self, i: usize) -> (r: &StoredPoint)
        requires
            i < self.raw_points().len(),
        ensures
            *r == self.raw_points()[i as int],
    {
        &self.points[i]
    }

    /// Index of the field in the indexed list, if present.
    fn find_field_index(&self, key: &PayloadKeyType) -> (r: Option<usize>)
        ensures
            match r {
                Some(i) => i < self.indexed_fields@.len() && self.indexed_fields@[i as int]@
                    == key@,
                None => forall|j: int| 0 <= j < self.indexed_fields@.len() ==>
                    self.indexed_fields@[j]@ != key@,
            },
    {
        let n = self.indexed_fields.len();
        let mut i: usize = 0;
        while i < n
            invariant
                n == self.indexed_fields@.len(),
                0 <= i <= n,
                forall|j: int| 0 <= j < i ==> self.indexed_fields@[j]@ != key@,
            decreases n - i,
        {
            if self.indexed_fields[i] == *key {
                return Some(i);
            }
            i += 1;
        }
        None
    }

    /// Index of the entry carrying the id, if any.
    fn find_point_index(&self, point_id: PointIdType) -> (r: Option<usize>)
        ensures
            match r {
                Some(i) => i < self.points@.len() && self.points@[i as int].id == point_id,
                None => forall|j: int| 0 <= j < self.points@.len() ==> self.points@[j].id
                    != point_id,
            },
    {
        let n = self.points.len();
        let mut i: usize = 0;
        while i < n
            invariant
                n == self.points@.len(),
                0 <= i <= n,
                forall|j: int| 0 <= j < i ==> self.points@[j].id != point_id,
            decreases n - i,
        {
            if self.points[i].id == point_id {
                return Some(i);
            }
            i += 1;
        }
        None
    }
}

} // verus!
