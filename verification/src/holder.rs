//! The segment holder: a registry of live segments keyed by
//! monotonically assigned ids. The holder is where the collection-level
//! invariants live: segment ids are unique, every external point id has
//! at most one owning segment, and the registry keeps at least one
//! appendable segment once one was added.

use vstd::prelude::*;
use crate::segment::{
    OperationError, OperationResult, Segment, SegmentView, StoredPointView, payload_arg_view,
};
use crate::payload::{PayloadMap, PayloadValueView};
use crate::types::spec_is_appendable;
use crate::{PayloadKeyType, PointIdType, SeqNumberType, VectorElementType};

verus! {

/// Identifier of a segment inside the holder.
pub type SegmentId = usize;

/// Mathematical state of a holder: the registered segments in
/// registration order.
pub type HolderView = Seq<(SegmentId, SegmentView)>;

/// Segment ids are pairwise distinct.
pub open spec fn sh_unique(s: HolderView) -> bool {
    forall|i: int, j: int| 0 <= i < j < s.len() ==> s[i].0 != s[j].0
}

/// Some registered segment carries this segment id.
pub open spec fn sh_has(s: HolderView, sid: SegmentId) -> bool {
    exists|i: int| 0 <= i < s.len() && s[i].0 == sid
}

/// No external point id is live in two registered segments.
pub open spec fn sh_disjoint(s: HolderView) -> bool {
    forall|i: int, j: int, id: PointIdType|
        0 <= i < j < s.len() ==> !(#[trigger] s[i].1.points.contains_key(id)
            && #[trigger] s[j].1.points.contains_key(id))
}

/// Some registered segment is appendable.
pub open spec fn sh_has_appendable(s: HolderView) -> bool {
    exists|i: int| 0 <= i < s.len() && spec_is_appendable(#[trigger] s[i].1.config)
}

/// All live points of the collection, merged across segments.
pub open spec fn sh_points(s: HolderView) -> Map<PointIdType, StoredPointView>
    decreases s.len(),
{
    if s.len() == 0 {
        Map::empty()
    } else {
        sh_points(s.drop_last()).union_prefer_right(s.last().1.points)
    }
}

/// A point id is live in the collection exactly when some segment
/// holds it.
pub proof fn lemma_sh_points_dom(s: HolderView, id: PointIdType)
    ensures
        sh_points(s).contains_key(id) <==> exists|i: int|
            0 <= i < s.len() && (#[trigger] s[i].1).points.contains_key(id),
    decreases s.len(),
{
    if s.len() > 0 {
        lemma_sh_points_dom(s.drop_last(), id);
        if s.last().1.points.contains_key(id) {
            assert(s[s.len() - 1].1.points.contains_key(id));
        } else if sh_points(s).contains_key(id) {
            let i = choose|i: int|
                0 <= i < s.drop_last().len() && (#[trigger] s.drop_last()[i].1)
                    .points.contains_key(id);
            assert(s[i].1.points.contains_key(id));
        } else if exists|i: int| 0 <= i < s.len() && (#[trigger] s[i].1).points.contains_key(id) {
            let i = choose|i: int| 0 <= i < s.len() && (#[trigger] s[i].1).points.contains_key(id);
            assert(s.drop_last()[i].1.points.contains_key(id));
        }
    }
}

/// With owners unique, the merged map agrees with the owning segment.
pub proof fn lemma_sh_points_value(s: HolderView, i: int, id: PointIdType)
    requires
        sh_disjoint(s),
        0 <= i < s.len(),
        s[i].1.points.contains_key(id),
    ensures
        sh_points(s).contains_key(id),
        sh_points(s)[id] == s[i].1.points[id],
    decreases s.len(),
{
    lemma_sh_points_dom(s, id);
    if i < s.len() - 1 {
        assert(s.drop_last()[i] == s[i]);
        lemma_sh_points_value(s.drop_last(), i, id);
        assert(!s[s.len() - 1].1.points.contains_key(id));
    }
}

/// The registry kept after dropping the segments with the given ids,
/// in order.
pub open spec fn sh_retain(s: HolderView, removed: Seq<SegmentId>) -> HolderView
    decreases s.len(),
{
    if s.len() == 0 {
        Seq::empty()
    } else {
        let rest = sh_retain(s.drop_last(), removed);
        if removed.contains(s.last().0) {
            rest
        } else {
            rest.push(s.last())
        }
    }
}

/// Every kept entry is an entry of the source whose id was not
/// dropped.
pub proof fn lemma_sh_retain_sound(s: HolderView, removed: Seq<SegmentId>)
    ensures
        sh_retain(s, removed).len() <= s.len(),
        forall|j: int| 0 <= j < sh_retain(s, removed).len() ==> exists|i: int|
            0 <= i < s.len() && #[trigger] sh_retain(s, removed)[j] == s[i] && !removed.contains(
                s[i].0,
            ),
    decreases s.len(),
{
    let r = sh_retain(s, removed);
    if s.len() > 0 {
        lemma_sh_retain_sound(s.drop_last(), removed);
        let rest = sh_retain(s.drop_last(), removed);
        assert forall|j: int| 0 <= j < r.len() implies exists|i: int|
            0 <= i < s.len() && #[trigger] r[j] == s[i] && !removed.contains(s[i].0) by {
            if j < rest.len() {
                let i = choose|i: int|
                    0 <= i < s.drop_last().len() && #[trigger] rest[j] == s.drop_last()[i]
                        && !removed.contains(s.drop_last()[i].0);
                assert(r[j] == s[i] && !removed.contains(s[i].0));
            } else {
                assert(r[j] == s[s.len() - 1]);
            }
        }
    }
}

/// Every source entry whose id was not dropped is kept.
pub proof fn lemma_sh_retain_complete(s: HolderView, removed: Seq<SegmentId>)
    ensures
        forall|i: int|
            0 <= i < s.len() && !removed.contains(#[trigger] s[i].0) ==> exists|j: int|
                0 <= j < sh_retain(s, removed).len() && sh_retain(s, removed)[j] == s[i],
    decreases s.len(),
{
    let r = sh_retain(s, removed);
    if s.len() > 0 {
        lemma_sh_retain_complete(s.drop_last(), removed);
        let rest = sh_retain(s.drop_last(), removed);
        assert forall|i: int|
            0 <= i < s.len() && !removed.contains(#[trigger] s[i].0) implies exists|j: int|
            0 <= j < r.len() && r[j] == s[i] by {
            if i < s.len() - 1 {
                assert(s.drop_last()[i] == s[i]);
                let j = choose|j: int| 0 <= j < rest.len() && rest[j] == s.drop_last()[i];
                assert(r[j] == s[i]);
            } else {
                assert(r[r.len() - 1] == s[i]);
            }
        }
    }
}

/// Under unique source ids, the kept ids are unique and none of the
/// dropped ids remains.
pub proof fn lemma_sh_retain_unique(s: HolderView, removed: Seq<SegmentId>)
    requires
        sh_unique(s),
    ensures
        sh_unique(sh_retain(s, removed)),
        forall|x: SegmentId| removed.contains(x) ==> !sh_has(sh_retain(s, removed), x),
    decreases s.len(),
{
    let r = sh_retain(s, removed);
    lemma_sh_retain_sound(s, removed);
    if s.len() > 0 {
        lemma_sh_retain_unique(s.drop_last(), removed);
        let rest = sh_retain(s.drop_last(), removed);
        lemma_sh_retain_sound(s.drop_last(), removed);
        assert forall|j1: int, j2: int| 0 <= j1 < j2 < r.len() implies r[j1].0 != r[j2].0 by {
            if j2 < rest.len() {
                assert(rest[j1].0 != rest[j2].0);
            } else {
                assert(r[j2] == s[s.len() - 1]);
                assert(rest[j1] == r[j1]);
                let m1 = choose|m: int|
                    0 <= m < s.drop_last().len() && #[trigger] rest[j1] == s.drop_last()[m]
                        && !removed.contains(s.drop_last()[m].0);
                assert(s[m1].0 != s[s.len() - 1].0);
            }
        }
    }
    assert forall|x: SegmentId| removed.contains(x) implies !sh_has(r, x) by {
        if sh_has(r, x) {
            let j = choose|j: int| 0 <= j < r.len() && r[j].0 == x;
            let i = choose|i: int|
                0 <= i < s.len() && #[trigger] r[j] == s[i] && !removed.contains(s[i].0);
        }
    }
}

/// Under unique ids, a retain keeps point-disjointness.
pub proof fn lemma_sh_retain_disjoint(s: HolderView, removed: Seq<SegmentId>)
    requires
        sh_unique(s),
        sh_disjoint(s),
    ensures
        sh_disjoint(sh_retain(s, removed)),
    decreases s.len(),
{
    let r = sh_retain(s, removed);
    lemma_sh_retain_sound(s, removed);
    if s.len() > 0 {
        lemma_sh_retain_disjoint(s.drop_last(), removed);
        let rest = sh_retain(s.drop_last(), removed);
        lemma_sh_retain_sound(s.drop_last(), removed);
        assert forall|j1: int, j2: int, id: PointIdType|
            0 <= j1 < j2 < r.len() implies !(#[trigger] r[j1].1.points.contains_key(id)
            && #[trigger] r[j2].1.points.contains_key(id)) by {
            if j2 < rest.len() {
                assert(!(rest[j1].1.points.contains_key(id) && rest[j2].1.points.contains_key(
                    id,
                )));
            } else {
                assert(r[j2] == s[s.len() - 1]);
                assert(rest[j1] == r[j1]);
                let m1 = choose|m: int|
                    0 <= m < s.drop_last().len() && #[trigger] rest[j1] == s.drop_last()[m]
                        && !removed.contains(s.drop_last()[m].0);
                assert(!(s[m1].1.points.contains_key(id) && s[s.len() - 1].1.points.contains_key(
                    id,
                )));
            }
        }
    }
}

/// Appending a fresh id to a retain keeps segment ids unique.
pub proof fn lemma_retain_push_unique(
    s: HolderView,
    removed: Seq<SegmentId>,
    sid: SegmentId,
    seg: SegmentView,
)
    requires
        sh_unique(s),
        forall|i: int| 0 <= i < s.len() ==> (#[trigger] s[i]).0 < sid,
    ensures
        sh_unique(sh_retain(s, removed).push((sid, seg))),
        !sh_has(s, sid),
    decreases s.len(),
{
    lemma_sh_retain_sound(s, removed);
    lemma_sh_retain_unique(s, removed);
    let r = sh_retain(s, removed);
    let p = r.push((sid, seg));
    assert forall|j1: int, j2: int| 0 <= j1 < j2 < p.len() implies p[j1].0 != p[j2].0 by {
        if j2 < r.len() {
            assert(r[j1].0 != r[j2].0);
        } else {
            let i = choose|i: int|
                0 <= i < s.len() && #[trigger] r[j1] == s[i] && !removed.contains(s[i].0);
            assert(s[i].0 < sid);
        }
    }
    if sh_has(s, sid) {
        let i = choose|i: int| 0 <= i < s.len() && s[i].0 == sid;
        assert(s[i].0 < sid);
    }
}

/// The state of the segment registered under an id.
pub open spec fn sh_view(s: HolderView, sid: SegmentId) -> SegmentView {
    s[choose|i: int| 0 <= i < s.len() && s[i].0 == sid].1
}

/// Under unique ids, `sh_view` agrees with every position.
pub proof fn lemma_sh_view(s: HolderView, i: int)
    requires
        sh_unique(s),
        0 <= i < s.len(),
    ensures
        sh_view(s, s[i].0) == s[i].1,
{
    assert(sh_has(s, s[i].0));
    let j = choose|j: int| 0 <= j < s.len() && s[j].0 == s[i].0;
    if j < i {
        assert(s[j].0 != s[i].0);
    } else if j > i {
        assert(s[i].0 != s[j].0);
    }
}

/// Two distinct registered segments never share a live point.
pub proof fn lemma_distinct_views_disjoint(
    s: HolderView,
    sid1: SegmentId,
    sid2: SegmentId,
    id: PointIdType,
)
    requires
        sh_unique(s),
        sh_disjoint(s),
        sh_has(s, sid1),
        sh_has(s, sid2),
        sid1 != sid2,
    ensures
        !(sh_view(s, sid1).points.contains_key(id) && sh_view(s, sid2).points.contains_key(id)),
{
    let i1 = choose|i: int| 0 <= i < s.len() && s[i].0 == sid1;
    let i2 = choose|i: int| 0 <= i < s.len() && s[i].0 == sid2;
    lemma_sh_view(s, i1);
    lemma_sh_view(s, i2);
    if i1 < i2 {
        assert(!(s[i1].1.points.contains_key(id) && s[i2].1.points.contains_key(id)));
    } else {
        assert(!(s[i2].1.points.contains_key(id) && s[i1].1.points.contains_key(id)));
    }
}

/// Registries whose segments hold the same points, position by
/// position, describe the same live point map.
proof fn lemma_sh_points_congruent(s1: HolderView, s2: HolderView)
    requires
        s1.len() == s2.len(),
        forall|i: int| 0 <= i < s1.len() ==> (#[trigger] s1[i]).1.points == s2[i].1.points,
    ensures
        sh_points(s1) == sh_points(s2),
    decreases s1.len(),
{
    if s1.len() > 0 {
        lemma_sh_points_congruent(s1.drop_last(), s2.drop_last());
    }
}

/// How many registered segments apply a field-index operation at the
/// given sequence number: the appendable ones whose version does not
/// exceed it.
pub open spec fn sh_count_applied(s: HolderView, v: SeqNumberType, k: int) -> int
    decreases k,
{
    if k <= 0 {
        0
    } else {
        sh_count_applied(s, v, k - 1) + if spec_is_appendable(s[k - 1].1.config) && s[k
            - 1].1.version <= v {
            1int
        } else {
            0int
        }
    }
}

/// The payload an upsert leaves on a point: the given one; else the
/// payload the point already carried; else empty.
pub open spec fn holder_upsert_payload(
    m: Map<PointIdType, StoredPointView>,
    id: PointIdType,
    given: Option<Map<Seq<char>, PayloadValueView>>,
) -> Map<Seq<char>, PayloadValueView> {
    match given {
        Some(p) => p,
        None => if m.contains_key(id) {
            m[id].payload
        } else {
            Map::empty()
        },
    }
}

/// After the only segment holding a point dropped it, the merged map
/// dropped it too.
proof fn lemma_sh_points_segment_removed(
    pre: HolderView,
    post: HolderView,
    i: int,
    id: PointIdType,
)
    requires
        sh_disjoint(pre),
        0 <= i < pre.len(),
        post.len() == pre.len(),
        forall|j: int| 0 <= j < pre.len() && j != i ==> post[j] == pre[j],
        post[i].1.points == pre[i].1.points.remove(id),
        forall|j: int| 0 <= j < pre.len() && j != i ==> !(#[trigger] pre[j].1).points.contains_key(
            id,
        ),
    ensures
        sh_disjoint(post),
        sh_points(post) == sh_points(pre).remove(id),
{
    assert forall|i2: int, j2: int, id2: PointIdType|
        0 <= i2 < j2 < post.len() implies !(#[trigger] post[i2].1.points.contains_key(id2)
        && #[trigger] post[j2].1.points.contains_key(id2)) by {
        if post[i2].1.points.contains_key(id2) && post[j2].1.points.contains_key(id2) {
            assert(pre[i2].1.points.contains_key(id2));
            assert(pre[j2].1.points.contains_key(id2));
        }
    }
    let lhs = sh_points(post);
    let rhs = sh_points(pre).remove(id);
    assert forall|x: PointIdType| #[trigger] lhs.contains_key(x) implies rhs.contains_key(x)
        && lhs[x] == rhs[x] by {
        lemma_sh_points_dom(post, x);
        let k = choose|k: int| 0 <= k < post.len() && (#[trigger] post[k].1).points.contains_key(x);
        assert(pre[k].1.points.contains_key(x));
        if k == i {
            assert(x != id);
        } else {
            assert(x != id);
        }
        lemma_sh_points_value(post, k, x);
        lemma_sh_points_value(pre, k, x);
    }
    assert forall|x: PointIdType| #[trigger] rhs.contains_key(x) implies lhs.contains_key(x) by {
        lemma_sh_points_dom(pre, x);
        let k = choose|k: int| 0 <= k < pre.len() && (#[trigger] pre[k].1).points.contains_key(x);
        assert(post[k].1.points.contains_key(x));
        lemma_sh_points_dom(post, x);
    }
    assert(lhs =~= rhs);
}

/// After one segment gained or rewrote a point no other segment holds,
/// the merged map gained it too.
proof fn lemma_sh_points_segment_inserted(
    pre: HolderView,
    post: HolderView,
    i: int,
    id: PointIdType,
    v: StoredPointView,
)
    requires
        sh_disjoint(pre),
        0 <= i < pre.len(),
        post.len() == pre.len(),
        forall|j: int| 0 <= j < pre.len() && j != i ==> post[j] == pre[j],
        post[i].1.points == pre[i].1.points.insert(id, v),
        forall|j: int| 0 <= j < pre.len() && j != i ==> !(#[trigger] pre[j].1).points.contains_key(
            id,
        ),
    ensures
        sh_disjoint(post),
        sh_points(post) == sh_points(pre).insert(id, v),
{
    assert forall|i2: int, j2: int, id2: PointIdType|
        0 <= i2 < j2 < post.len() implies !(#[trigger] post[i2].1.points.contains_key(id2)
        && #[trigger] post[j2].1.points.contains_key(id2)) by {
        if post[i2].1.points.contains_key(id2) && post[j2].1.points.contains_key(id2) {
            if id2 == id {
                if i2 != i {
                    assert(pre[i2].1.points.contains_key(id2));
                }
                if j2 != i {
                    assert(pre[j2].1.points.contains_key(id2));
                }
            } else {
                assert(pre[i2].1.points.contains_key(id2));
                assert(pre[j2].1.points.contains_key(id2));
            }
        }
    }
    let lhs = sh_points(post);
    let rhs = sh_points(pre).insert(id, v);
    assert forall|x: PointIdType| #[trigger] lhs.contains_key(x) implies rhs.contains_key(x)
        && lhs[x] == rhs[x] by {
        lemma_sh_points_dom(post, x);
        let k = choose|k: int| 0 <= k < post.len() && (#[trigger] post[k].1).points.contains_key(x);
        lemma_sh_points_value(post, k, x);
        if x == id {
            assert(k == i);
            assert(post[i].1.points[id] == v);
        } else {
            assert(pre[k].1.points.contains_key(x));
            lemma_sh_points_value(pre, k, x);
        }
    }
    assert forall|x: PointIdType| #[trigger] rhs.contains_key(x) implies lhs.contains_key(x) by {
        if x == id {
            assert(post[i].1.points.contains_key(x));
            lemma_sh_points_dom(post, x);
        } else {
            lemma_sh_points_dom(pre, x);
            let k = choose|k: int|
                0 <= k < pre.len() && (#[trigger] pre[k].1).points.contains_key(x);
            assert(post[k].1.points.contains_key(x));
            lemma_sh_points_dom(post, x);
        }
    }
    assert(lhs =~= rhs);
}

/// A registry of live segments.
pub struct SegmentHolder {
    segments: Vec<(SegmentId, Segment)>,
    next_id: SegmentId,
}

impl View for SegmentHolder {
    type V = HolderView;

    closed spec fn view(&self) -> HolderView {
        self.segments@.map_values(|p: (SegmentId, Segment)| (p.0, p.1@))
    }
}

impl SegmentHolder {
    /// Representation invariant: distinct segment ids, all below the
    /// next id to assign, every segment well formed.
    pub closed spec fn wf(&self) -> bool {
        &&& sh_unique(self@)
        &&& forall|i: int| 0 <= i < self.segments@.len() ==> (#[trigger] self.segments@[i]).1.wf()
        &&& forall|i: int| 0 <= i < self.segments@.len() ==> (#[trigger] self.segments@[i]).0
            < self.next_id
    }

    /// How many ids can still be assigned.
    pub closed spec fn id_headroom(&self) -> int {
        usize::MAX - self.next_id
    }

    /// A well-formed registry has unique segment ids.
    pub proof fn lemma_wf_unique(&self)
        requires
            self.wf(),
        ensures
            sh_unique(self@),
    {
    }

    /// The next id to assign; every registered id is below it.
    pub closed spec fn ids_bound(&self) -> SegmentId {
        self.next_id
    }

    /// Every registered id is below the bound.
    pub proof fn lemma_ids_bound(&self)
        requires
            self.wf(),
        ensures
            forall|x: SegmentId| sh_has(self@, x) ==> x < self.ids_bound(),
    {
        assert forall|x: SegmentId| sh_has(self@, x) implies x < self.ids_bound() by {
            let i = choose|i: int| 0 <= i < self@.len() && self@[i].0 == x;
            assert(self.segments@[i].0 < self.next_id);
        }
    }

    /// An empty registry.
    pub fn new() -> (r: SegmentHolder)
        ensures
            r.wf(),
            r@ == Seq::<(SegmentId, SegmentView)>::empty(),
            r.id_headroom() == usize::MAX,
    {
        let r = SegmentHolder { segments: Vec::new(), next_id: 0 };
        proof {
            assert(r@ =~= Seq::<(SegmentId, SegmentView)>::empty());
        }
        r
    }

    /// Number of registered segments.
    pub fn len(&self) -> (r: usize)
        ensures
            r == self@.len(),
    {
        self.segments.len()
    }

    /// Register a segment under a fresh id.
    pub fn add(&mut self, segment: Segment) -> (sid: SegmentId)
        requires
            old(self).wf(),
            old(self).id_headroom() >= 1,
            segment.wf(),
        ensures
            final(self).wf(),
            !sh_has(old(self)@, sid),
            sid == old(self).ids_bound(),
            final(self).ids_bound() == old(self).ids_bound() + 1,
            final(self)@ == old(self)@.push((sid, segment@)),
            final(self).id_headroom() >= old(self).id_headroom() - 1,
    {
        let sid = self.next_id;
        self.next_id = self.next_id + 1;
        self.segments.push((sid, segment));
        proof {
            assert(self@ =~= old(self)@.push((sid, segment@)));
            if sh_has(old(self)@, sid) {
                let i = choose|i: int| 0 <= i < old(self)@.len() && old(self)@[i].0 == sid;
                assert(old(self).segments@[i].0 < sid);
            }
        }
        sid
    }

    /// Borrow the segment registered under an id.
    pub fn get(&self, sid: SegmentId) -> (r: Option<&Segment>)
        requires
            self.wf(),
        ensures
            match r {
                Some(seg) => seg.wf() && exists|i: int|
                    0 <= i < self@.len() && #[trigger] self@[i] == (sid, seg@),
                None => !sh_has(self@, sid),
            },
    {
        let n = self.segments.len();
        let mut i: usize = 0;
        while i < n
            invariant
                n == self.segments@.len(),
                0 <= i <= n,
                self.wf(),
                forall|j: int| 0 <= j < i ==> (#[trigger] self.segments@[j]).0 != sid,
            decreases n - i,
        {
            if self.segments[i].0 == sid {
                let seg = &self.segments[i].1;
                proof {
                    assert(self@[i as int] == (sid, seg@));
                }
                return Some(seg);
            }
            i += 1;
        }
        None
    }

    /// The id and segment at a registry position.
    pub fn segment_at(&self, i: usize) -> (r: (SegmentId, &Segment))
        requires
            self.wf(),
            i < self@.len(),
        ensures
            r.0 == self@[i as int].0,
            r.1@ == self@[i as int].1,
            r.1.wf(),
    {
        proof {
            assert(self.segments@[i as int].1.wf());
        }
        (self.segments[i].0, &self.segments[i].1)
    }

    /// Ids of the appendable segments, in registration order.
    pub fn appendable_segments(&self) -> (r: Vec<SegmentId>)
        requires
            self.wf(),
        ensures
            forall|j: int| 0 <= j < r@.len() ==> exists|i: int|
                0 <= i < self@.len() && (#[trigger] self@[i]).0 == #[trigger] r@[j]
                    && spec_is_appendable(self@[i].1.config),
            r@.len() > 0 <==> sh_has_appendable(self@),
    {
        let n = self.segments.len();
        let mut r: Vec<SegmentId> = Vec::new();
        let mut i: usize = 0;
        while i < n
            invariant
                n == self.segments@.len(),
                0 <= i <= n,
                self.wf(),
                forall|j: int| 0 <= j < r@.len() ==> exists|k: int|
                    0 <= k < self@.len() && (#[trigger] self@[k]).0 == #[trigger] r@[j]
                        && spec_is_appendable(self@[k].1.config),
                r@.len() > 0 <==> exists|k: int|
                    0 <= k < i && spec_is_appendable((#[trigger] self@[k]).1.config),
            decreases n - i,
        {
            if self.segments[i].1.is_appendable() {
                r.push(self.segments[i].0);
                proof {
                    assert(self@[i as int].0 == self.segments@[i as int].0);
                    assert(spec_is_appendable(self@[i as int].1.config));
                }
            }
            i += 1;
        }
        r
    }

    /// Position of the first appendable segment.
    fn first_appendable_index(&self) -> (r: Option<usize>)
        requires
            self.wf(),
        ensures
            match r {
                Some(i) => i < self@.len() && spec_is_appendable(self@[i as int].1.config),
                None => !sh_has_appendable(self@),
            },
    {
        let n = self.segments.len();
        let mut i: usize = 0;
        while i < n
            invariant
                n == self.segments@.len(),
                0 <= i <= n,
                self.wf(),
                forall|j: int| 0 <= j < i ==> !spec_is_appendable((#[trigger] self@[j]).1.config),
            decreases n - i,
        {
            if self.segments[i].1.is_appendable() {
                return Some(i);
            }
            i += 1;
        }
        None
    }

    /// Position of the segment owning a live point, if any.
    fn owner_index(&self, point_id: PointIdType) -> (r: Option<usize>)
        requires
            self.wf(),
        ensures
            match r {
                Some(i) => i < self@.len() && self@[i as int].1.points.contains_key(point_id),
                None => forall|j: int| 0 <= j < self@.len() ==> !(#[trigger] self@[j])
                    .1.points.contains_key(point_id),
            },
    {
        let n = self.segments.len();
        let mut i: usize = 0;
        while i < n
            invariant
                n == self.segments@.len(),
                0 <= i <= n,
                self.wf(),
                forall|j: int| 0 <= j < i ==> !(#[trigger] self@[j]).1.points.contains_key(
                    point_id,
                ),
            decreases n - i,
        {
            if self.segments[i].1.has_point(point_id) {
                return Some(i);
            }
            i += 1;
        }
        None
    }

    /// Upsert a point with find-or-assign routing: the point is
    /// rewritten in place when its owning segment is appendable;
    /// otherwise it is written to the first appendable segment and
    /// evicted from its old owner, so that at most one segment keeps
    /// it live.
    pub fn upsert_point(
        &mut self,
        op_num: SeqNumberType,
        point_id: PointIdType,
        vector: &Vec<VectorElementType>,
        payload: Option<&PayloadMap>,
    ) -> (r: OperationResult<bool>)
        requires
            old(self).wf(),
            sh_disjoint(old(self)@),
            sh_has_appendable(old(self)@),
            (payload matches Some(p) ==> p.wf()),
        ensures
            final(self).wf(),
            sh_disjoint(final(self)@),
            final(self)@.len() == old(self)@.len(),
            forall|i: int| 0 <= i < old(self)@.len() ==> (#[trigger] final(self)@[i]).0
                == old(self)@[i].0 && final(self)@[i].1.config == old(self)@[i].1.config
                && final(self)@[i].1.indexed_fields == old(self)@[i].1.indexed_fields,
            forall|i: int| 0 <= i < old(self)@.len() ==> (#[trigger] final(self)@[i]).1.version
                == old(self)@[i].1.version || final(self)@[i].1.version == op_num,
            (match r {
                Ok(true) => sh_points(final(self)@) == sh_points(old(self)@).insert(
                    point_id,
                    StoredPointView {
                        vector: vector@,
                        payload: holder_upsert_payload(
                            sh_points(old(self)@),
                            point_id,
                            payload_arg_view(payload),
                        ),
                    },
                ) && exists|i: int|
                    0 <= i < final(self)@.len() && (#[trigger] final(self)@[i])
                        .1.points.contains_key(point_id) && spec_is_appendable(
                        final(self)@[i].1.config,
                    ),
                Ok(false) => (sh_points(final(self)@) == sh_points(old(self)@) || sh_points(
                    final(self)@,
                ) == sh_points(old(self)@).remove(point_id)) && exists|i: int|
                    0 <= i < old(self)@.len() && (#[trigger] old(self)@[i]).1.version > op_num,
                Err(OperationError::WrongVector { expected_dim, received_dim }) => {
                    &&& received_dim == vector@.len()
                    &&& received_dim != expected_dim
                    &&& final(self)@ == old(self)@
                    &&& exists|i: int|
                        0 <= i < old(self)@.len() && spec_is_appendable(
                            (#[trigger] old(self)@[i]).1.config,
                        ) && old(self)@[i].1.config.vector_size == expected_dim
                },
                Err(_) => false,
            }),
    {
        let owner = self.owner_index(point_id);
        let mut moved_from: Option<usize> = None;
        let target: usize;
        match owner {
            Some(i) => {
                proof {
                    assert(self.segments@[i as int].1.wf());
                }
                if self.segments[i].1.is_appendable() {
                    target = i;
                } else {
                    match self.first_appendable_index() {
                        Some(j) => {
                            target = j;
                            moved_from = Some(i);
                        },
                        None => {
                            proof {
                                assert(false);
                            }
                            target = 0;
                        },
                    }
                }
            },
            None => {
                match self.first_appendable_index() {
                    Some(j) => {
                        target = j;
                    },
                    None => {
                        proof {
                            assert(false);
                        }
                        target = 0;
                    },
                }
            },
        }
        proof {
            assert(self.segments@[target as int].1.wf());
        }
        let cfg = self.segments[target].1.config();
        if vector.len() != cfg.vector_size {
            return Err(
                OperationError::WrongVector {
                    expected_dim: cfg.vector_size,
                    received_dim: vector.len(),
                },
            );
        }
        let ghost pre = self@;
        let ghost kept_payload = holder_upsert_payload(
            sh_points(pre),
            point_id,
            payload_arg_view(payload),
        );
        let mut carried: Option<PayloadMap> = None;
        match moved_from {
            Some(i) => {
                proof {
                    assert(self.segments@[i as int].1.wf());
                }
                if payload.is_none() {
                    match self.segments[i].1.payload(point_id) {
                        Ok(p) => {
                            carried = Some(p);
                        },
                        Err(_) => {
                            proof {
                                assert(false);
                            }
                        },
                    }
                }
                proof {
                    lemma_sh_points_value(pre, i as int, point_id);
                }
                self.segments[i].1.evict_point(op_num, point_id);
                proof {
                    assert forall|j: int|
                        0 <= j < pre.len() && j != i implies self@[j] == pre[j] by {
                        assert(self.segments@[j] == old(self).segments@[j]);
                    }
                    assert forall|j: int|
                        0 <= j < pre.len() && j != i implies !(#[trigger] pre[j].1)
                        .points.contains_key(point_id) by {
                        if j < i {
                            assert(!(pre[j].1.points.contains_key(point_id)
                                && pre[i as int].1.points.contains_key(point_id)));
                        } else {
                            assert(!(pre[i as int].1.points.contains_key(point_id)
                                && pre[j].1.points.contains_key(point_id)));
                        }
                    }
                    lemma_sh_points_segment_removed(pre, self@, i as int, point_id);
                }
            },
            None => {},
        }
        let ghost mid = self@;
        let pay_ref: Option<&PayloadMap> = match payload {
            Some(p) => Some(p),
            None => match &carried {
                Some(c) => Some(c),
                None => None,
            },
        };
        proof {
            assert(self.segments@[target as int].1.wf());
        }
        let res = self.segments[target].1.upsert_point(op_num, point_id, vector, pay_ref);
        proof {
            assert forall|j: int| 0 <= j < mid.len() && j != target implies self@[j] == mid[j] by {
            }
            assert forall|j: int|
                0 <= j < mid.len() && j != target implies !(#[trigger] mid[j].1)
                .points.contains_key(point_id) by {
                match moved_from {
                    Some(i) => {
                        if j != i {
                            assert(mid[j] == pre[j]);
                            if j < i {
                                assert(!(pre[j].1.points.contains_key(point_id)
                                    && pre[i as int].1.points.contains_key(point_id)));
                            } else {
                                assert(!(pre[i as int].1.points.contains_key(point_id)
                                    && pre[j].1.points.contains_key(point_id)));
                            }
                        }
                    },
                    None => {
                        assert(mid[j] == pre[j]);
                        match owner {
                            Some(oi) => {
                                assert(oi == target);
                                if j < target {
                                    assert(!(pre[j].1.points.contains_key(point_id)
                                        && pre[target as int].1.points.contains_key(point_id)));
                                } else {
                                    assert(!(pre[target as int].1.points.contains_key(point_id)
                                        && pre[j].1.points.contains_key(point_id)));
                                }
                            },
                            None => {},
                        }
                    },
                }
            }
            match res {
                Ok(true) => {
                    let newv = StoredPointView { vector: vector@, payload: kept_payload };
                    assert(self@[target as int].1.points == mid[target as int].1.points.insert(
                        point_id,
                        newv,
                    )) by {
                        match payload_arg_view(payload) {
                            Some(_) => {},
                            None => {
                                match moved_from {
                                    Some(i) => {
                                        assert(carried matches Some(c) && c@ == sh_points(
                                            pre,
                                        )[point_id].payload);
                                        assert(!mid[target as int].1.points.contains_key(
                                            point_id,
                                        ));
                                    },
                                    None => {
                                        match owner {
                                            Some(oi) => {
                                                lemma_sh_points_value(
                                                    pre,
                                                    target as int,
                                                    point_id,
                                                );
                                            },
                                            None => {
                                                lemma_sh_points_dom(pre, point_id);
                                                assert(!mid[target as int].1.points.contains_key(
                                                    point_id,
                                                ));
                                            },
                                        }
                                    },
                                }
                            },
                        }
                    }
                    lemma_sh_points_segment_inserted(mid, self@, target as int, point_id, newv);
                    match moved_from {
                        Some(_) => {
                            assert(sh_points(self@) =~= sh_points(pre).insert(point_id, newv));
                        },
                        None => {
                            assert(sh_points(self@) =~= sh_points(pre).insert(point_id, newv));
                        },
                    }
                    assert(self@[target as int].1.points.contains_key(point_id)
                        && spec_is_appendable(self@[target as int].1.config));
                },
                Ok(false) => {
                    assert(self@ =~= mid);
                },
                Err(_) => {
                    assert(spec_is_appendable(mid[target as int].1.config));
                    assert(false);
                },
            }
            assert forall|j: int|
                0 <= j < self.segments@.len() implies (#[trigger] self.segments@[j]).1.wf()
                && self.segments@[j].0 < self.next_id by {
                assert(old(self).segments@[j].1.wf());
                assert(old(self).segments@[j].0 < old(self).next_id);
            }
            assert forall|i2: int, j2: int| 0 <= i2 < j2 < self@.len() implies self@[i2].0
                != self@[j2].0 by {
                assert(old(self)@[i2].0 != old(self)@[j2].0);
            }
        }
        res
    }

    /// Delete a point wherever it lives. Without an owner nothing
    /// happens.
    #[verifier::rlimit(50)]
    pub fn delete_point(&mut self, op_num: SeqNumberType, point_id: PointIdType) -> (r:
        OperationResult<bool>)
        requires
            old(self).wf(),
            sh_disjoint(old(self)@),
        ensures
            final(self).wf(),
            sh_disjoint(final(self)@),
            final(self)@.len() == old(self)@.len(),
            forall|i: int| 0 <= i < old(self)@.len() ==> (#[trigger] final(self)@[i]).0
                == old(self)@[i].0 && final(self)@[i].1.config == old(self)@[i].1.config
                && final(self)@[i].1.indexed_fields == old(self)@[i].1.indexed_fields,
            forall|i: int| 0 <= i < old(self)@.len() ==> (#[trigger] final(self)@[i]).1.version
                == old(self)@[i].1.version || final(self)@[i].1.version == op_num,
            (match r {
                Ok(true) => sh_points(final(self)@) == sh_points(old(self)@).remove(point_id),
                Ok(false) => final(self)@ == old(self)@ && (!sh_points(old(self)@).contains_key(
                    point_id,
                ) || exists|i: int|
                    0 <= i < old(self)@.len() && (#[trigger] old(self)@[i]).1.version > op_num),
                Err(_) => false,
            }),
    {
        let owner = self.owner_index(point_id);
        match owner {
            None => {
                proof {
                    lemma_sh_points_dom(self@, point_id);
                }
                Ok(false)
            },
            Some(i) => {
                proof {
                    assert(self.segments@[i as int].1.wf());
                }
                let ghost pre = self@;
                let res = self.segments[i].1.delete_point(op_num, point_id);
                proof {
                    assert forall|j: int|
                        0 <= j < pre.len() && j != i implies self@[j] == pre[j] by {
                    }
                    assert forall|j: int|
                        0 <= j < pre.len() && j != i implies !(#[trigger] pre[j].1)
                        .points.contains_key(point_id) by {
                        if j < i {
                            assert(!(pre[j].1.points.contains_key(point_id)
                                && pre[i as int].1.points.contains_key(point_id)));
                        } else {
                            assert(!(pre[i as int].1.points.contains_key(point_id)
                                && pre[j].1.points.contains_key(point_id)));
                        }
                    }
                    match res {
                        Ok(true) => {
                            lemma_sh_points_segment_removed(pre, self@, i as int, point_id);
                        },
                        Ok(false) => {
                            assert(self@ =~= pre);
                        },
                        Err(_) => {
                            assert(false);
                        },
                    }
                    assert forall|j: int|
                        0 <= j < self.segments@.len() implies (#[trigger] self.segments@[j])
                        .1.wf() && self.segments@[j].0 < self.next_id by {
                        assert(old(self).segments@[j].1.wf());
                        assert(old(self).segments@[j].0 < old(self).next_id);
                    }
                    assert forall|i2: int, j2: int| 0 <= i2 < j2 < self@.len() implies self@[i2].0
                        != self@[j2].0 by {
                        assert(old(self)@[i2].0 != old(self)@[j2].0);
                    }
                }
                match res {
                    Ok(b) => Ok(b),
                    Err(e) => Err(e),
                }
            },
        }
    }

    /// Merge a payload patch into a point, wherever it lives.
    #[verifier::rlimit(50)]
    pub fn set_payload(
        &mut self,
        op_num: SeqNumberType,
        point_id: PointIdType,
        patch: &PayloadMap,
    ) -> (r: OperationResult<bool>)
        requires
            old(self).wf(),
            sh_disjoint(old(self)@),
            patch.wf(),
        ensures
            final(self).wf(),
            sh_disjoint(final(self)@),
            final(self)@.len() == old(self)@.len(),
            forall|i: int| 0 <= i < old(self)@.len() ==> (#[trigger] final(self)@[i]).0
                == old(self)@[i].0 && final(self)@[i].1.config == old(self)@[i].1.config
                && final(self)@[i].1.indexed_fields == old(self)@[i].1.indexed_fields,
            forall|i: int| 0 <= i < old(self)@.len() ==> (#[trigger] final(self)@[i])
                .1.points.dom() == old(self)@[i].1.points.dom(),
            forall|i: int| 0 <= i < old(self)@.len() ==> (#[trigger] final(self)@[i]).1.version
                == old(self)@[i].1.version || final(self)@[i].1.version == op_num,
            (match r {
                Ok(true) => sh_points(old(self)@).contains_key(point_id) && sh_points(
                    final(self)@,
                ) == sh_points(old(self)@).insert(
                    point_id,
                    StoredPointView {
                        vector: sh_points(old(self)@)[point_id].vector,
                        payload: sh_points(old(self)@)[point_id].payload.union_prefer_right(
                            patch@,
                        ),
                    },
                ),
                Ok(false) => final(self)@ == old(self)@ && exists|i: int|
                    0 <= i < old(self)@.len() && (#[trigger] old(self)@[i]).1.version > op_num,
                Err(OperationError::PointIdError { missed_point_id }) => missed_point_id
                    == point_id && !sh_points(old(self)@).contains_key(point_id) && final(self)@
                    == old(self)@,
                Err(OperationError::ServiceError { .. }) => final(self)@ == old(self)@
                    && exists|i: int|
                    0 <= i < old(self)@.len() && (#[trigger] old(self)@[i]).1.points.contains_key(
                        point_id,
                    ) && !spec_is_appendable(old(self)@[i].1.config),
                Err(_) => false,
            }),
    {
        let owner = self.owner_index(point_id);
        match owner {
            None => {
                proof {
                    lemma_sh_points_dom(self@, point_id);
                }
                Err(OperationError::PointIdError { missed_point_id: point_id })
            },
            Some(i) => {
                proof {
                    assert(self.segments@[i as int].1.wf());
                }
                let ghost pre = self@;
                proof {
                    lemma_sh_points_value(pre, i as int, point_id);
                }
                let res = self.segments[i].1.set_payload(op_num, point_id, patch);
                proof {
                    assert forall|j: int|
                        0 <= j < pre.len() && j != i implies self@[j] == pre[j] by {
                    }
                    assert forall|j: int|
                        0 <= j < pre.len() && j != i implies !(#[trigger] pre[j].1)
                        .points.contains_key(point_id) by {
                        if j < i {
                            assert(!(pre[j].1.points.contains_key(point_id)
                                && pre[i as int].1.points.contains_key(point_id)));
                        } else {
                            assert(!(pre[i as int].1.points.contains_key(point_id)
                                && pre[j].1.points.contains_key(point_id)));
                        }
                    }
                    match res {
                        Ok(true) => {
                            let newv = StoredPointView {
                                vector: sh_points(pre)[point_id].vector,
                                payload: sh_points(pre)[point_id].payload.union_prefer_right(
                                    patch@,
                                ),
                            };
                            assert(self@[i as int].1.points == pre[i as int].1.points.insert(
                                point_id,
                                newv,
                            ));
                            lemma_sh_points_segment_inserted(pre, self@, i as int, point_id, newv);
                            assert(self@[i as int].1.points.dom() =~= pre[i as int]
                                .1.points.dom());
                        },
                        Ok(false) => {
                            assert(self@ =~= pre);
                            assert(pre[i as int].1.version > op_num);
                        },
                        Err(OperationError::ServiceError { .. }) => {
                            assert(self@ =~= pre);
                            assert(pre[i as int].1.points.contains_key(point_id));
                            assert(!spec_is_appendable(pre[i as int].1.config));
                        },
                        Err(_) => {
                            assert(false);
                        },
                    }
                    assert forall|j: int|
                        0 <= j < self.segments@.len() implies (#[trigger] self.segments@[j]).1.wf()
                        && self.segments@[j].0 < self.next_id by {
                        assert(old(self).segments@[j].1.wf());
                        assert(old(self).segments@[j].0 < old(self).next_id);
                    }
                    assert forall|i2: int, j2: int| 0 <= i2 < j2 < self@.len() implies self@[i2].0
                        != self@[j2].0 by {
                        assert(old(self)@[i2].0 != old(self)@[j2].0);
                    }
                }
                res
            },
        }
    }

    /// Remove payload keys of a point, wherever it lives.
    #[verifier::rlimit(50)]
    pub fn delete_payload(
        &mut self,
        op_num: SeqNumberType,
        point_id: PointIdType,
        keys: &Vec<PayloadKeyType>,
    ) -> (r: OperationResult<bool>)
        requires
            old(self).wf(),
            sh_disjoint(old(self)@),
        ensures
            final(self).wf(),
            sh_disjoint(final(self)@),
            final(self)@.len() == old(self)@.len(),
            forall|i: int| 0 <= i < old(self)@.len() ==> (#[trigger] final(self)@[i]).0
                == old(self)@[i].0 && final(self)@[i].1.config == old(self)@[i].1.config
                && final(self)@[i].1.indexed_fields == old(self)@[i].1.indexed_fields,
            forall|i: int| 0 <= i < old(self)@.len() ==> (#[trigger] final(self)@[i])
                .1.points.dom() == old(self)@[i].1.points.dom(),
            forall|i: int| 0 <= i < old(self)@.len() ==> (#[trigger] final(self)@[i]).1.version
                == old(self)@[i].1.version || final(self)@[i].1.version == op_num,
            (match r {
                Ok(true) => sh_points(old(self)@).contains_key(point_id) && sh_points(
                    final(self)@,
                ) == sh_points(old(self)@).insert(
                    point_id,
                    StoredPointView {
                        vector: sh_points(old(self)@)[point_id].vector,
                        payload: crate::segment::map_without_keys(
                            sh_points(old(self)@)[point_id].payload,
                            keys@.map_values(|s: String| s@),
                        ),
                    },
                ),
                Ok(false) => final(self)@ == old(self)@ && exists|i: int|
                    0 <= i < old(self)@.len() && (#[trigger] old(self)@[i]).1.version > op_num,
                Err(OperationError::PointIdError { missed_point_id }) => missed_point_id
                    == point_id && !sh_points(old(self)@).contains_key(point_id) && final(self)@
                    == old(self)@,
                Err(OperationError::ServiceError { .. }) => final(self)@ == old(self)@
                    && exists|i: int|
                    0 <= i < old(self)@.len() && (#[trigger] old(self)@[i]).1.points.contains_key(
                        point_id,
                    ) && !spec_is_appendable(old(self)@[i].1.config),
                Err(_) => false,
            }),
    {
        let owner = self.owner_index(point_id);
        match owner {
            None => {
                proof {
                    lemma_sh_points_dom(self@, point_id);
                }
                Err(OperationError::PointIdError { missed_point_id: point_id })
            },
            Some(i) => {
                proof {
                    assert(self.segments@[i as int].1.wf());
                }
                let ghost pre = self@;
                proof {
                    lemma_sh_points_value(pre, i as int, point_id);
                }
                let res = self.segments[i].1.delete_payload(op_num, point_id, keys);
                proof {
                    assert forall|j: int|
                        0 <= j < pre.len() && j != i implies self@[j] == pre[j] by {
                    }
                    assert forall|j: int|
                        0 <= j < pre.len() && j != i implies !(#[trigger] pre[j].1)
                        .points.contains_key(point_id) by {
                        if j < i {
                            assert(!(pre[j].1.points.contains_key(point_id)
                                && pre[i as int].1.points.contains_key(point_id)));
                        } else {
                            assert(!(pre[i as int].1.points.contains_key(point_id)
                                && pre[j].1.points.contains_key(point_id)));
                        }
                    }
                    match res {
                        Ok(true) => {
                            let newv = StoredPointView {
                                vector: sh_points(pre)[point_id].vector,
                                payload: crate::segment::map_without_keys(
                                    sh_points(pre)[point_id].payload,
                                    keys@.map_values(|s: String| s@),
                                ),
                            };
                            assert(self@[i as int].1.points == pre[i as int].1.points.insert(
                                point_id,
                                newv,
                            ));
                            lemma_sh_points_segment_inserted(pre, self@, i as int, point_id, newv);
                            assert(self@[i as int].1.points.dom() =~= pre[i as int]
                                .1.points.dom());
                        },
                        Ok(false) => {
                            assert(self@ =~= pre);
                            assert(pre[i as int].1.version > op_num);
                        },
                        Err(OperationError::ServiceError { .. }) => {
                            assert(self@ =~= pre);
                            assert(pre[i as int].1.points.contains_key(point_id));
                            assert(!spec_is_appendable(pre[i as int].1.config));
                        },
                        Err(_) => {
                            assert(false);
                        },
                    }
                    assert forall|j: int|
                        0 <= j < self.segments@.len() implies (#[trigger] self.segments@[j]).1.wf()
                        && self.segments@[j].0 < self.next_id by {
                        assert(old(self).segments@[j].1.wf());
                        assert(old(self).segments@[j].0 < old(self).next_id);
                    }
                    assert forall|i2: int, j2: int| 0 <= i2 < j2 < self@.len() implies self@[i2].0
                        != self@[j2].0 by {
                        assert(old(self)@[i2].0 != old(self)@[j2].0);
                    }
                }
                res
            },
        }
    }

    /// Clear the payload of a point, wherever it lives.
    #[verifier::rlimit(50)]
    pub fn clear_payload(&mut self, op_num: SeqNumberType, point_id: PointIdType) -> (r:
        OperationResult<bool>)
        requires
            old(self).wf(),
            sh_disjoint(old(self)@),
        ensures
            final(self).wf(),
            sh_disjoint(final(self)@),
            final(self)@.len() == old(self)@.len(),
            forall|i: int| 0 <= i < old(self)@.len() ==> (#[trigger] final(self)@[i]).0
                == old(self)@[i].0 && final(self)@[i].1.config == old(self)@[i].1.config
                && final(self)@[i].1.indexed_fields == old(self)@[i].1.indexed_fields,
            forall|i: int| 0 <= i < old(self)@.len() ==> (#[trigger] final(self)@[i])
                .1.points.dom() == old(self)@[i].1.points.dom(),
            forall|i: int| 0 <= i < old(self)@.len() ==> (#[trigger] final(self)@[i]).1.version
                == old(self)@[i].1.version || final(self)@[i].1.version == op_num,
            (match r {
                Ok(true) => sh_points(old(self)@).contains_key(point_id) && sh_points(
                    final(self)@,
                ) == sh_points(old(self)@).insert(
                    point_id,
                    StoredPointView {
                        vector: sh_points(old(self)@)[point_id].vector,
                        payload: Map::empty(),
                    },
                ),
                Ok(false) => final(self)@ == old(self)@ && exists|i: int|
                    0 <= i < old(self)@.len() && (#[trigger] old(self)@[i]).1.version > op_num,
                Err(OperationError::PointIdError { missed_point_id }) => missed_point_id
                    == point_id && !sh_points(old(self)@).contains_key(point_id) && final(self)@
                    == old(self)@,
                Err(OperationError::ServiceError { .. }) => final(self)@ == old(self)@
                    && exists|i: int|
                    0 <= i < old(self)@.len() && (#[trigger] old(self)@[i]).1.points.contains_key(
                        point_id,
                    ) && !spec_is_appendable(old(self)@[i].1.config),
                Err(_) => false,
            }),
    {
        let owner = self.owner_index(point_id);
        match owner {
            None => {
                proof {
                    lemma_sh_points_dom(self@, point_id);
                }
                Err(OperationError::PointIdError { missed_point_id: point_id })
            },
            Some(i) => {
                proof {
                    assert(self.segments@[i as int].1.wf());
                }
                let ghost pre = self@;
                proof {
                    lemma_sh_points_value(pre, i as int, point_id);
                }
                let res = self.segments[i].1.clear_payload(op_num, point_id);
                proof {
                    assert forall|j: int|
                        0 <= j < pre.len() && j != i implies self@[j] == pre[j] by {
                    }
                    assert forall|j: int|
                        0 <= j < pre.len() && j != i implies !(#[trigger] pre[j].1)
                        .points.contains_key(point_id) by {
                        if j < i {
                            assert(!(pre[j].1.points.contains_key(point_id)
                                && pre[i as int].1.points.contains_key(point_id)));
                        } else {
                            assert(!(pre[i as int].1.points.contains_key(point_id)
                                && pre[j].1.points.contains_key(point_id)));
                        }
                    }
                    match res {
                        Ok(true) => {
                            let newv = StoredPointView {
                                vector: sh_points(pre)[point_id].vector,
                                payload: Map::empty(),
                            };
                            assert(self@[i as int].1.points == pre[i as int].1.points.insert(
                                point_id,
                                newv,
                            ));
                            lemma_sh_points_segment_inserted(pre, self@, i as int, point_id, newv);
                            assert(self@[i as int].1.points.dom() =~= pre[i as int]
                                .1.points.dom());
                        },
                        Ok(false) => {
                            assert(self@ =~= pre);
                            assert(pre[i as int].1.version > op_num);
                        },
                        Err(OperationError::ServiceError { .. }) => {
                            assert(self@ =~= pre);
                            assert(pre[i as int].1.points.contains_key(point_id));
                            assert(!spec_is_appendable(pre[i as int].1.config));
                        },
                        Err(_) => {
                            assert(false);
                        },
                    }
                    assert forall|j: int|
                        0 <= j < self.segments@.len() implies (#[trigger] self.segments@[j]).1.wf()
                        && self.segments@[j].0 < self.next_id by {
                        assert(old(self).segments@[j].1.wf());
                        assert(old(self).segments@[j].0 < old(self).next_id);
                    }
                    assert forall|i2: int, j2: int| 0 <= i2 < j2 < self@.len() implies self@[i2].0
                        != self@[j2].0 by {
                        assert(old(self)@[i2].0 != old(self)@[j2].0);
                    }
                }
                res
            },
        }
    }

    /// Mark a payload field for indexing in every appendable segment.
    /// Non-appendable segments change their indexed set only when the
    /// optimizer rebuilds them. Returns how many segments applied the
    /// operation.
    pub fn create_field_index(&mut self, op_num: SeqNumberType, key: &PayloadKeyType) -> (r: usize)
        requires
            old(self).wf(),
            sh_disjoint(old(self)@),
        ensures
            final(self).wf(),
            sh_disjoint(final(self)@),
            sh_points(final(self)@) == sh_points(old(self)@),
            final(self)@.len() == old(self)@.len(),
            forall|i: int| 0 <= i < old(self)@.len() ==> (#[trigger] final(self)@[i]).0
                == old(self)@[i].0 && final(self)@[i].1.config == old(self)@[i].1.config
                && final(self)@[i].1.points == old(self)@[i].1.points,
            forall|i: int|
                0 <= i < old(self)@.len() && spec_is_appendable(
                    (#[trigger] old(self)@[i]).1.config,
                ) && old(self)@[i].1.version <= op_num ==> final(self)@[i].1.indexed_fields
                    == old(self)@[i].1.indexed_fields.insert(key@),
            forall|i: int|
                0 <= i < old(self)@.len() && !spec_is_appendable(
                    (#[trigger] old(self)@[i]).1.config,
                ) ==> final(self)@[i] == old(self)@[i],
            forall|i: int| 0 <= i < old(self)@.len() ==> (#[trigger] final(self)@[i]).1.version
                == old(self)@[i].1.version || final(self)@[i].1.version == op_num,
            r == sh_count_applied(old(self)@, op_num, old(self)@.len() as int),
    {
        let n = self.segments.len();
        let ghost pre = self@;
        let mut applied: usize = 0;
        let mut i: usize = 0;
        while i < n
            invariant
                n == self.segments@.len(),
                n == pre.len(),
                0 <= i <= n,
                applied <= i,
                applied == sh_count_applied(pre, op_num, i as int),
                self.wf(),
                self.next_id == old(self).next_id,
                forall|j: int| i <= j < n ==> self@[j] == pre[j],
                forall|j: int| 0 <= j < n ==> (#[trigger] self@[j]).1.version == pre[j].1.version
                    || self@[j].1.version == op_num,
                forall|j: int| 0 <= j < n ==> (#[trigger] self@[j]).0 == pre[j].0 && self@[j]
                    .1.config == pre[j].1.config && self@[j].1.points == pre[j].1.points,
                forall|j: int|
                    0 <= j < i && spec_is_appendable((#[trigger] pre[j]).1.config) && pre[j]
                        .1.version <= op_num ==> self@[j].1.indexed_fields == pre[j]
                        .1.indexed_fields.insert(key@),
                forall|j: int|
                    0 <= j < i && !spec_is_appendable((#[trigger] pre[j]).1.config) ==> self@[j]
                        == pre[j],
            decreases n - i,
        {
            proof {
                assert(self.segments@[i as int].1.wf());
            }
            let ghost raw_pre = self.segments@;
            let ghost view_pre = self@;
            if self.segments[i].1.is_appendable() {
                let res = self.segments[i].1.create_field_index(op_num, key);
                match res {
                    Ok(true) => {
                        applied += 1;
                    },
                    Ok(false) => {},
                    Err(_) => {
                        proof {
                            assert(false);
                        }
                    },
                }
            }
            proof {
                assert forall|j: int|
                    0 <= j < self.segments@.len() implies (#[trigger] self.segments@[j]).1.wf()
                    && self.segments@[j].0 < self.next_id by {
                    if j != i {
                        assert(self.segments@[j] == raw_pre[j]);
                    }
                    assert(raw_pre[j].1.wf() && raw_pre[j].0 < self.next_id);
                }
                assert forall|i2: int, j2: int| 0 <= i2 < j2 < self@.len() implies self@[i2].0
                    != self@[j2].0 by {
                    assert(view_pre[i2].0 != view_pre[j2].0);
                    assert(view_pre[i2].0 == raw_pre[i2].0 && view_pre[j2].0 == raw_pre[j2].0);
                    assert(self@[i2].0 == self.segments@[i2].0 && self@[j2].0
                        == self.segments@[j2].0);
                    if i2 != i {
                        assert(self.segments@[i2] == raw_pre[i2]);
                    }
                    if j2 != i {
                        assert(self.segments@[j2] == raw_pre[j2]);
                    }
                }
            }
            i += 1;
        }
        proof {
            lemma_sh_points_congruent(self@, pre);
            assert forall|i2: int, j2: int, id: PointIdType|
                0 <= i2 < j2 < self@.len() implies !(#[trigger] self@[i2].1.points.contains_key(id)
                && #[trigger] self@[j2].1.points.contains_key(id)) by {
                assert(!(pre[i2].1.points.contains_key(id) && pre[j2].1.points.contains_key(id)));
            }
        }
        applied
    }

    /// Drop the index mark of a payload field in every appendable
    /// segment. Returns how many segments applied the operation.
    pub fn delete_field_index(&mut self, op_num: SeqNumberType, key: &PayloadKeyType) -> (r: usize)
        requires
            old(self).wf(),
            sh_disjoint(old(self)@),
        ensures
            final(self).wf(),
            sh_disjoint(final(self)@),
            sh_points(final(self)@) == sh_points(old(self)@),
            final(self)@.len() == old(self)@.len(),
            forall|i: int| 0 <= i < old(self)@.len() ==> (#[trigger] final(self)@[i]).0
                == old(self)@[i].0 && final(self)@[i].1.config == old(self)@[i].1.config
                && final(self)@[i].1.points == old(self)@[i].1.points,
            forall|i: int|
                0 <= i < old(self)@.len() && spec_is_appendable(
                    (#[trigger] old(self)@[i]).1.config,
                ) && old(self)@[i].1.version <= op_num ==> final(self)@[i].1.indexed_fields
                    == old(self)@[i].1.indexed_fields.remove(key@),
            forall|i: int|
                0 <= i < old(self)@.len() && !spec_is_appendable(
                    (#[trigger] old(self)@[i]).1.config,
                ) ==> final(self)@[i] == old(self)@[i],
            forall|i: int| 0 <= i < old(self)@.len() ==> (#[trigger] final(self)@[i]).1.version
                == old(self)@[i].1.version || final(self)@[i].1.version == op_num,
            r == sh_count_applied(old(self)@, op_num, old(self)@.len() as int),
    {
        let n = self.segments.len();
        let ghost pre = self@;
        let mut applied: usize = 0;
        let mut i: usize = 0;
        while i < n
            invariant
                n == self.segments@.len(),
                n == pre.len(),
                0 <= i <= n,
                applied <= i,
                applied == sh_count_applied(pre, op_num, i as int),
                self.wf(),
                self.next_id == old(self).next_id,
                forall|j: int| i <= j < n ==> self@[j] == pre[j],
                forall|j: int| 0 <= j < n ==> (#[trigger] self@[j]).1.version == pre[j].1.version
                    || self@[j].1.version == op_num,
                forall|j: int| 0 <= j < n ==> (#[trigger] self@[j]).0 == pre[j].0 && self@[j]
                    .1.config == pre[j].1.config && self@[j].1.points == pre[j].1.points,
                forall|j: int|
                    0 <= j < i && spec_is_appendable((#[trigger] pre[j]).1.config) && pre[j]
                        .1.version <= op_num ==> self@[j].1.indexed_fields == pre[j]
                        .1.indexed_fields.remove(key@),
                forall|j: int|
                    0 <= j < i && !spec_is_appendable((#[trigger] pre[j]).1.config) ==> self@[j]
                        == pre[j],
            decreases n - i,
        {
            proof {
                assert(self.segments@[i as int].1.wf());
            }
            let ghost raw_pre = self.segments@;
            let ghost view_pre = self@;
            if self.segments[i].1.is_appendable() {
                let res = self.segments[i].1.delete_field_index(op_num, key);
                match res {
                    Ok(true) => {
                        applied += 1;
                    },
                    Ok(false) => {},
                    Err(_) => {
                        proof {
                            assert(false);
                        }
                    },
                }
            }
            proof {
                assert forall|j: int|
                    0 <= j < self.segments@.len() implies (#[trigger] self.segments@[j]).1.wf()
                    && self.segments@[j].0 < self.next_id by {
                    if j != i {
                        assert(self.segments@[j] == raw_pre[j]);
                    }
                    assert(raw_pre[j].1.wf() && raw_pre[j].0 < self.next_id);
                }
                assert forall|i2: int, j2: int| 0 <= i2 < j2 < self@.len() implies self@[i2].0
                    != self@[j2].0 by {
                    assert(view_pre[i2].0 != view_pre[j2].0);
                    assert(view_pre[i2].0 == raw_pre[i2].0 && view_pre[j2].0 == raw_pre[j2].0);
                    assert(self@[i2].0 == self.segments@[i2].0 && self@[j2].0
                        == self.segments@[j2].0);
                    if i2 != i {
                        assert(self.segments@[i2] == raw_pre[i2]);
                    }
                    if j2 != i {
                        assert(self.segments@[j2] == raw_pre[j2]);
                    }
                }
            }
            i += 1;
        }
        proof {
            lemma_sh_points_congruent(self@, pre);
            assert forall|i2: int, j2: int, id: PointIdType|
                0 <= i2 < j2 < self@.len() implies !(#[trigger] self@[i2].1.points.contains_key(id)
                && #[trigger] self@[j2].1.points.contains_key(id)) by {
                assert(!(pre[i2].1.points.contains_key(id) && pre[j2].1.points.contains_key(id)));
            }
        }
        applied
    }

    /// Replace the segments with the given ids by one new segment,
    /// atomically from the point of view of every reader of the
    /// registry. Returns the id of the inserted segment.
    pub fn swap(&mut self, remove_ids: &Vec<SegmentId>, segment: Segment) -> (sid: SegmentId)
        requires
            old(self).wf(),
            old(self).id_headroom() >= 1,
            segment.wf(),
        ensures
            final(self).wf(),
            !sh_has(old(self)@, sid),
            sid == old(self).ids_bound(),
            final(self).ids_bound() == old(self).ids_bound() + 1,
            final(self)@ == sh_retain(old(self)@, remove_ids@).push((sid, segment@)),
            final(self).id_headroom() >= old(self).id_headroom() - 1,
    {
        let n = self.segments.len();
        let mut kept: Vec<(SegmentId, Segment)> = Vec::new();
        let ghost orig = self@;
        let ghost orig_raw = self.segments@;
        let mut i: usize = 0;
        while i < n
            invariant
                n == orig_raw.len(),
                0 <= i <= n,
                self.segments@ == orig_raw.skip(i as int),
                orig == orig_raw.map_values(|p: (SegmentId, Segment)| (p.0, p.1@)),
                kept@.map_values(|p: (SegmentId, Segment)| (p.0, p.1@)) == sh_retain(
                    orig.take(i as int),
                    remove_ids@,
                ),
                forall|j: int| 0 <= j < orig_raw.len() ==> (#[trigger] orig_raw[j]).1.wf(),
                forall|j: int| 0 <= j < orig_raw.len() ==> (#[trigger] orig_raw[j]).0
                    < old(self).next_id,
                forall|j: int| 0 <= j < kept@.len() ==> (#[trigger] kept@[j]).1.wf(),
                forall|j: int| 0 <= j < kept@.len() ==> (#[trigger] kept@[j]).0
                    < old(self).next_id,
                self.next_id == old(self).next_id,
            decreases n - i,
        {
            let entry = self.segments.remove(0);
            proof {
                assert(orig_raw.skip(i as int)[0] == orig_raw[i as int]);
                assert(self.segments@ =~= orig_raw.skip(i + 1));
                assert(orig.take(i + 1).drop_last() =~= orig.take(i as int));
                assert(orig.take(i + 1).last() == orig[i as int]);
                assert(orig[i as int] == (orig_raw[i as int].0, orig_raw[i as int].1@));
            }
            let is_removed = contains_sid(remove_ids, entry.0);
            if !is_removed {
                kept.push(entry);
                proof {
                    assert(kept@.map_values(|p: (SegmentId, Segment)| (p.0, p.1@)) =~= sh_retain(
                        orig.take(i + 1),
                        remove_ids@,
                    ));
                }
            } else {
                proof {
                    assert(kept@.map_values(|p: (SegmentId, Segment)| (p.0, p.1@)) =~= sh_retain(
                        orig.take(i + 1),
                        remove_ids@,
                    ));
                }
            }
            i += 1;
        }
        proof {
            assert(orig.take(n as int) =~= orig);
        }
        let sid = self.next_id;
        self.next_id = self.next_id + 1;
        kept.push((sid, segment));
        self.segments = kept;
        proof {
            assert(self@ =~= sh_retain(orig, remove_ids@).push((sid, segment@)));
            assert forall|i: int| 0 <= i < orig.len() implies (#[trigger] orig[i]).0 < sid by {
                assert(orig_raw[i].0 < sid);
            }
            lemma_retain_push_unique(orig, remove_ids@, sid, segment@);
        }
        sid
    }
}

/// Is the id among the listed ids?
fn contains_sid(ids: &Vec<SegmentId>, sid: SegmentId) -> (r: bool)
    ensures
        r == ids@.contains(sid),
{
    let n = ids.len();
    let mut i: usize = 0;
    while i < n
        invariant
            n == ids.len(),
            0 <= i <= n,
            forall|j: int| 0 <= j < i ==> ids@[j] != sid,
        decreases n - i,
    {
        if ids[i] == sid {
            return true;
        }
        i += 1;
    }
    false
}

} // verus!
