//! Collection-wide laws, stated over the mathematical models that the
//! executable functions' contracts use.

use vstd::prelude::*;
use crate::holder::{HolderView, sh_disjoint};
use crate::payload::PayloadValueView;
use crate::segment::{
    SegmentView, map_without_keys, spec_clear_payload, spec_create_field_index,
    spec_delete_field_index, spec_delete_point, spec_set_payload, spec_upsert_point,
};
use crate::{PointIdType, SeqNumberType, VectorElementType};

verus! {

/// Id uniqueness across segments: whenever two registered segments of
/// an ownership-disjoint registry both hold a live point with the same
/// external id, they are the same segment. This is what the query path
/// observes: at most one segment reports any id as live.
pub proof fn lemma_unique_owner(s: HolderView, i: int, j: int, id: PointIdType)
    requires
        sh_disjoint(s),
        0 <= i < s.len(),
        0 <= j < s.len(),
        s[i].1.points.contains_key(id),
        s[j].1.points.contains_key(id),
    ensures
        i == j,
{
    if i < j {
        assert(!(s[i].1.points.contains_key(id) && s[j].1.points.contains_key(id)));
    } else if j < i {
        assert(!(s[j].1.points.contains_key(id) && s[i].1.points.contains_key(id)));
    }
}

/// Replaying an upsert that a segment already applied leaves the
/// segment as it is: applying the transition twice equals applying it
/// once. Together with the version gate, which skips operations older
/// than the segment's version, this makes replaying any suffix of the
/// write-ahead log safe.
pub proof fn lemma_upsert_replay_idempotent(
    v: SegmentView,
    op_num: SeqNumberType,
    id: PointIdType,
    vector: Seq<VectorElementType>,
    payload: Option<Map<Seq<char>, PayloadValueView>>,
)
    ensures
        spec_upsert_point(spec_upsert_point(v, op_num, id, vector, payload), op_num, id, vector, payload)
            == spec_upsert_point(v, op_num, id, vector, payload),
{
    let v1 = spec_upsert_point(v, op_num, id, vector, payload);
    let v2 = spec_upsert_point(v1, op_num, id, vector, payload);
    assert(v1.points.contains_key(id));
    assert(v2.points =~= v1.points);
    assert(v2 =~= v1);
}

/// Replaying a point deletion that a segment already applied leaves
/// the segment as it is.
pub proof fn lemma_delete_replay_idempotent(
    v: SegmentView,
    op_num: SeqNumberType,
    id: PointIdType,
)
    ensures
        spec_delete_point(spec_delete_point(v, op_num, id), op_num, id) == spec_delete_point(
            v,
            op_num,
            id,
        ),
{
    let v1 = spec_delete_point(v, op_num, id);
    let v2 = spec_delete_point(v1, op_num, id);
    assert(v2.points =~= v1.points);
    assert(v2 =~= v1);
}

/// Replaying a payload merge that a segment already applied leaves the
/// segment as it is.
pub proof fn lemma_set_payload_replay_idempotent(
    v: SegmentView,
    op_num: SeqNumberType,
    id: PointIdType,
    patch: Map<Seq<char>, PayloadValueView>,
)
    requires
        v.points.contains_key(id),
    ensures
        spec_set_payload(spec_set_payload(v, op_num, id, patch), op_num, id, patch)
            == spec_set_payload(v, op_num, id, patch),
{
    let v1 = spec_set_payload(v, op_num, id, patch);
    let v2 = spec_set_payload(v1, op_num, id, patch);
    assert(v1.points[id].payload =~= v2.points[id].payload);
    assert(v2.points =~= v1.points);
    assert(v2 =~= v1);
}

/// Replaying a payload clear that a segment already applied leaves the
/// segment as it is.
pub proof fn lemma_clear_payload_replay_idempotent(
    v: SegmentView,
    op_num: SeqNumberType,
    id: PointIdType,
)
    requires
        v.points.contains_key(id),
    ensures
        spec_clear_payload(spec_clear_payload(v, op_num, id), op_num, id) == spec_clear_payload(
            v,
            op_num,
            id,
        ),
{
    let v1 = spec_clear_payload(v, op_num, id);
    let v2 = spec_clear_payload(v1, op_num, id);
    assert(v2.points =~= v1.points);
    assert(v2 =~= v1);
}

/// Replaying a field-index creation or removal that a segment already
/// applied leaves the segment as it is.
pub proof fn lemma_field_index_replay_idempotent(
    v: SegmentView,
    op_num: SeqNumberType,
    key: Seq<char>,
)
    ensures
        spec_create_field_index(spec_create_field_index(v, op_num, key), op_num, key)
            == spec_create_field_index(v, op_num, key),
        spec_delete_field_index(spec_delete_field_index(v, op_num, key), op_num, key)
            == spec_delete_field_index(v, op_num, key),
{
    let c1 = spec_create_field_index(v, op_num, key);
    let c2 = spec_create_field_index(c1, op_num, key);
    assert(c2.indexed_fields =~= c1.indexed_fields);
    assert(c2 =~= c1);
    let d1 = spec_delete_field_index(v, op_num, key);
    let d2 = spec_delete_field_index(d1, op_num, key);
    assert(d2.indexed_fields =~= d1.indexed_fields);
    assert(d2 =~= d1);
}

/// Removing payload keys twice removes them once: the payload
/// transition of a key deletion is idempotent too.
pub proof fn lemma_delete_payload_keys_idempotent(
    m: Map<Seq<char>, PayloadValueView>,
    keys: Seq<Seq<char>>,
)
    ensures
        map_without_keys(map_without_keys(m, keys), keys) == map_without_keys(m, keys),
{
    assert(map_without_keys(map_without_keys(m, keys), keys) =~= map_without_keys(m, keys));
}

} // verus!
