//! The indexing optimizer: selects the largest plain segment that has
//! outgrown the configured thresholds and rewrites it into an indexed
//! form — memory-mapped storage when it crossed the memmap threshold,
//! in-memory otherwise — streaming all live points and indexed fields
//! into the replacement and swapping it into the holder atomically.

use vstd::prelude::*;
use crate::config::CollectionParams;
use crate::holder::{
    HolderView, SegmentHolder, SegmentId, lemma_distinct_views_disjoint, lemma_sh_points_dom,
    lemma_sh_points_value, lemma_sh_retain_complete, lemma_sh_retain_disjoint,
    lemma_sh_retain_sound, lemma_sh_retain_unique, lemma_sh_view, sh_disjoint, sh_has,
    sh_has_appendable, sh_points, sh_retain, sh_unique, sh_view,
};
use crate::operations::{CollectionError, CollectionResult};
use crate::payload::copy_elems;
use crate::segment::{Segment, StoredPoint, stored_point_view};
use crate::types::{
    HnswConfig, Indexes, PayloadIndexType, SegmentConfig, SegmentType, StorageType,
    spec_is_appendable, spec_segment_type_of,
};
use crate::PointIdType;

verus! {

/// Vector-count thresholds that drive the optimizers.
#[derive(Clone, Copy, Debug, PartialEq, Eq, Structural)]
pub struct OptimizerThresholds {
    /// Vector count from which a segment's storage is memory-mapped.
    pub memmap_threshold: usize,
    /// Vector count from which a segment gets a vector index.
    pub indexing_threshold: usize,
    /// Vector count from which indexed payload fields get structures.
    pub payload_indexing_threshold: usize,
}

/// A plain segment must be rewritten when it is big enough for a
/// vector index, or carries indexed payload fields and is big enough
/// for payload index structures.
pub open spec fn spec_segment_eligible(v: crate::segment::SegmentView, t: OptimizerThresholds) -> bool {
    let cnt = v.points.dom().len();
    let min_thr: int = if t.memmap_threshold <= t.indexing_threshold {
        t.memmap_threshold as int
    } else {
        t.indexing_threshold as int
    };
    &&& spec_segment_type_of(v.config) == SegmentType::Plain
    &&& (cnt >= min_thr || ((exists|k: Seq<char>| v.indexed_fields.contains(k)) && cnt
        >= t.payload_indexing_threshold))
}

/// Live points of the listed segments, merged in list order.
pub open spec fn ids_points(s: HolderView, ids: Seq<SegmentId>, k: int) -> Map<
    PointIdType,
    crate::segment::StoredPointView,
>
    decreases k,
{
    if k <= 0 {
        Map::empty()
    } else {
        ids_points(s, ids, k - 1).union_prefer_right(sh_view(s, ids[k - 1]).points)
    }
}

/// Total live vector count of the listed segments.
pub open spec fn ids_total_count(s: HolderView, ids: Seq<SegmentId>, k: int) -> int
    decreases k,
{
    if k <= 0 {
        0
    } else {
        ids_total_count(s, ids, k - 1) + sh_view(s, ids[k - 1]).points.dom().len()
    }
}

/// A point is in the merged candidate map exactly when one of the
/// listed segments holds it.
pub proof fn lemma_ids_points_dom(s: HolderView, ids: Seq<SegmentId>, k: int, id: PointIdType)
    requires
        0 <= k <= ids.len(),
    ensures
        ids_points(s, ids, k).contains_key(id) <==> exists|j: int|
            0 <= j < k && sh_view(s, #[trigger] ids[j]).points.contains_key(id),
    decreases k,
{
    if k > 0 {
        lemma_ids_points_dom(s, ids, k - 1, id);
        if sh_view(s, ids[k - 1]).points.contains_key(id) {
        } else if ids_points(s, ids, k).contains_key(id) {
            let j = choose|j: int| 0 <= j < k - 1 && sh_view(s, #[trigger] ids[j]).points.contains_key(id);
            assert(sh_view(s, ids[j]).points.contains_key(id));
        } else if exists|j: int| 0 <= j < k && sh_view(s, #[trigger] ids[j]).points.contains_key(id) {
            let j = choose|j: int| 0 <= j < k && sh_view(s, #[trigger] ids[j]).points.contains_key(id);
            assert(j < k - 1);
        }
    }
}

/// With pairwise-disjoint candidates, the merged candidate map agrees
/// with the holding segment.
pub proof fn lemma_ids_points_value(
    s: HolderView,
    ids: Seq<SegmentId>,
    k: int,
    j: int,
    id: PointIdType,
)
    requires
        sh_unique(s),
        sh_disjoint(s),
        forall|a: int, b: int| 0 <= a < b < ids.len() ==> ids[a] != ids[b],
        forall|a: int| 0 <= a < ids.len() ==> sh_has(s, #[trigger] ids[a]),
        0 <= j < k <= ids.len(),
        sh_view(s, ids[j]).points.contains_key(id),
    ensures
        ids_points(s, ids, k).contains_key(id),
        ids_points(s, ids, k)[id] == sh_view(s, ids[j]).points[id],
    decreases k,
{
    lemma_ids_points_dom(s, ids, k, id);
    if j < k - 1 {
        lemma_ids_points_value(s, ids, k - 1, j, id);
        lemma_distinct_views_disjoint(s, ids[j], ids[k - 1], id);
    }
}

/// The replacement segment an optimization run produces: indexed, not
/// appendable, memory-mapped exactly when the candidates' total count
/// crossed the memmap threshold, holding every live candidate point,
/// every indexed field of the candidates, and a version no candidate
/// exceeds.
pub open spec fn spec_replacement_ok(
    v: crate::segment::SegmentView,
    pre: HolderView,
    ids: Seq<SegmentId>,
    opt: IndexingOptimizer,
) -> bool {
    &&& v.config.vector_size == opt.collection_params.vector_size
    &&& v.config.distance == opt.collection_params.distance
    &&& v.config.index == Indexes::Hnsw(opt.hnsw_config)
    &&& v.config.storage_type == (if ids_total_count(pre, ids, ids.len() as int)
        >= opt.thresholds_config.memmap_threshold {
        StorageType::Mmap
    } else {
        StorageType::InMemory
    })
    &&& spec_segment_type_of(v.config) == SegmentType::Indexed
    &&& !spec_is_appendable(v.config)
    &&& v.points == ids_points(pre, ids, ids.len() as int)
    &&& forall|k: int, key: Seq<char>|
        0 <= k < ids.len() && #[trigger] sh_view(pre, ids[k]).indexed_fields.contains(key)
            ==> v.indexed_fields.contains(key)
    &&& forall|k: int| 0 <= k < ids.len() ==> sh_view(pre, #[trigger] ids[k]).version <= v.version
}

/// Swapping the candidates for a replacement that holds exactly their
/// merged points leaves the collection's live points unchanged.
#[verifier::rlimit(50)]
proof fn lemma_swap_preserves_points(
    pre: HolderView,
    ids: Seq<SegmentId>,
    post: HolderView,
    sid: SegmentId,
    repl: crate::segment::SegmentView,
)
    requires
        sh_unique(pre),
        sh_disjoint(pre),
        forall|a: int, b: int| 0 <= a < b < ids.len() ==> ids[a] != ids[b],
        forall|a: int| 0 <= a < ids.len() ==> sh_has(pre, #[trigger] ids[a]),
        repl.points == ids_points(pre, ids, ids.len() as int),
        post == sh_retain(pre, ids).push((sid, repl)),
    ensures
        sh_disjoint(post),
        sh_points(post) == sh_points(pre),
{
    lemma_sh_retain_sound(pre, ids);
    lemma_sh_retain_complete(pre, ids);
    lemma_sh_retain_unique(pre, ids);
    lemma_sh_retain_disjoint(pre, ids);
    let rt = sh_retain(pre, ids);
    let n = ids.len() as int;
    assert forall|j1: int, j2: int, id: PointIdType|
        0 <= j1 < j2 < post.len() implies !(#[trigger] post[j1].1.points.contains_key(id)
        && #[trigger] post[j2].1.points.contains_key(id)) by {
        if post[j1].1.points.contains_key(id) && post[j2].1.points.contains_key(id) {
            if j2 < rt.len() {
                assert(!(rt[j1].1.points.contains_key(id) && rt[j2].1.points.contains_key(id)));
            } else {
                assert(post[j1] == rt[j1]);
                let i1 = choose|i: int|
                    0 <= i < pre.len() && #[trigger] rt[j1] == pre[i] && !ids.contains(pre[i].0);
                lemma_ids_points_dom(pre, ids, n, id);
                let kk = choose|kk: int|
                    0 <= kk < n && sh_view(pre, #[trigger] ids[kk]).points.contains_key(id);
                let i2 = choose|i: int| 0 <= i < pre.len() && pre[i].0 == ids[kk];
                lemma_sh_view(pre, i2);
                assert(ids.contains(pre[i2].0));
                if i1 < i2 {
                    assert(!(pre[i1].1.points.contains_key(id) && pre[i2].1.points.contains_key(
                        id,
                    )));
                } else {
                    assert(!(pre[i2].1.points.contains_key(id) && pre[i1].1.points.contains_key(
                        id,
                    )));
                }
            }
        }
    }
    assert forall|id: PointIdType| #[trigger] sh_points(post).contains_key(id) implies sh_points(
        pre,
    ).contains_key(id) && sh_points(post)[id] == sh_points(pre)[id] by {
        lemma_sh_points_dom(post, id);
        let j = choose|j: int| 0 <= j < post.len() && (#[trigger] post[j].1).points.contains_key(id);
        lemma_sh_points_value(post, j, id);
        if j < rt.len() {
            let i = choose|i: int|
                0 <= i < pre.len() && #[trigger] rt[j] == pre[i] && !ids.contains(pre[i].0);
            lemma_sh_points_value(pre, i, id);
        } else {
            lemma_ids_points_dom(pre, ids, n, id);
            let kk = choose|kk: int|
                0 <= kk < n && sh_view(pre, #[trigger] ids[kk]).points.contains_key(id);
            let i2 = choose|i: int| 0 <= i < pre.len() && pre[i].0 == ids[kk];
            lemma_sh_view(pre, i2);
            lemma_sh_points_value(pre, i2, id);
            lemma_ids_points_value(pre, ids, n, kk, id);
        }
    }
    assert forall|id: PointIdType| #[trigger] sh_points(pre).contains_key(id) implies sh_points(
        post,
    ).contains_key(id) by {
        lemma_sh_points_dom(pre, id);
        let i = choose|i: int| 0 <= i < pre.len() && (#[trigger] pre[i].1).points.contains_key(id);
        if ids.contains(pre[i].0) {
            let kk = choose|kk: int| 0 <= kk < n && ids[kk] == pre[i].0;
            lemma_sh_view(pre, i);
            lemma_ids_points_value(pre, ids, n, kk, id);
            assert(post[post.len() - 1].1.points.contains_key(id));
            lemma_sh_points_dom(post, id);
        } else {
            let j = choose|j: int| 0 <= j < rt.len() && rt[j] == pre[i];
            assert(post[j].1.points.contains_key(id));
            lemma_sh_points_dom(post, id);
        }
    }
    assert(sh_points(post) =~= sh_points(pre));
}

/// Registering a segment without live points changes no live point.
proof fn lemma_push_empty_points(s: HolderView, sid: SegmentId, v: crate::segment::SegmentView)
    requires
        sh_disjoint(s),
        v.points == Map::<PointIdType, crate::segment::StoredPointView>::empty(),
    ensures
        sh_disjoint(s.push((sid, v))),
        sh_points(s.push((sid, v))) == sh_points(s),
{
    let p = s.push((sid, v));
    assert(p.drop_last() =~= s);
    assert(sh_points(p) == sh_points(s).union_prefer_right(v.points));
    assert(sh_points(p) =~= sh_points(s));
    assert forall|j1: int, j2: int, id: PointIdType|
        0 <= j1 < j2 < p.len() implies !(#[trigger] p[j1].1.points.contains_key(id)
        && #[trigger] p[j2].1.points.contains_key(id)) by {
        if j2 < s.len() {
            assert(!(s[j1].1.points.contains_key(id) && s[j2].1.points.contains_key(id)));
        }
    }
}

/// Rewrites plain segments that outgrew the thresholds into indexed
/// ones.
pub struct IndexingOptimizer {
    /// Thresholds that decide eligibility and the storage form.
    pub thresholds_config: OptimizerThresholds,
    /// Directory that holds the collection's segments.
    pub segments_path: String,
    /// Directory for replacement segments under construction.
    pub collection_temp_dir: String,
    /// Parameters every segment of the collection shares.
    pub collection_params: CollectionParams,
    /// Graph parameters for the indexes the optimizer builds.
    pub hnsw_config: HnswConfig,
}

impl IndexingOptimizer {
    pub fn new(
        thresholds_config: OptimizerThresholds,
        segments_path: String,
        collection_temp_dir: String,
        collection_params: CollectionParams,
        hnsw_config: HnswConfig,
    ) -> (r: Self)
        ensures
            r.thresholds_config == thresholds_config,
            r.segments_path@ == segments_path@,
            r.collection_temp_dir@ == collection_temp_dir@,
            r.collection_params == collection_params,
            r.hnsw_config == hnsw_config,
    {
        IndexingOptimizer {
            thresholds_config,
            segments_path,
            collection_temp_dir,
            collection_params,
            hnsw_config,
        }
    }

    /// Directory that holds the collection's segments.
    pub fn collection_path(&self) -> (r: &String)
        ensures
            r@ == self.segments_path@,
    {
        &self.segments_path
    }

    /// Directory for replacement segments under construction.
    pub fn temp_path(&self) -> (r: &String)
        ensures
            r@ == self.collection_temp_dir@,
    {
        &self.collection_temp_dir
    }

    /// Parameters every segment of the collection shares.
    pub fn collection_params(&self) -> (r: CollectionParams)
        ensures
            r == self.collection_params,
    {
        self.collection_params
    }

    /// Graph parameters for the indexes the optimizer builds.
    pub fn hnsw_config(&self) -> (r: HnswConfig)
        ensures
            r == self.hnsw_config,
    {
        self.hnsw_config
    }

    /// Thresholds that decide eligibility and the storage form.
    pub fn threshold_config(&self) -> (r: &OptimizerThresholds)
        ensures
            *r == self.thresholds_config,
    {
        &self.thresholds_config
    }

    /// The eligible segment with the most live vectors, if any; among
    /// equal counts, the one registered last.
    pub fn worst_segment(&self, segments: &SegmentHolder) -> (r: Option<SegmentId>)
        requires
            segments.wf(),
        ensures
            match r {
                Some(sid) => exists|i: int|
                    0 <= i < segments@.len() && (#[trigger] segments@[i]).0 == sid
                        && spec_segment_eligible(segments@[i].1, self.thresholds_config) && (
                    forall|j: int|
                        0 <= j < segments@.len() && spec_segment_eligible(
                            (#[trigger] segments@[j]).1,
                            self.thresholds_config,
                        ) ==> segments@[j].1.points.dom().len() <= segments@[i].1.points.dom().len()),
                None => forall|j: int| 0 <= j < segments@.len() ==> !spec_segment_eligible(
                    (#[trigger] segments@[j]).1,
                    self.thresholds_config,
                ),
            },
    {
        let n = segments.len();
        let mut best: Option<SegmentId> = None;
        let ghost mut best_i: int = 0;
        let mut best_count: usize = 0;
        let mut i: usize = 0;
        while i < n
            invariant
                n == segments@.len(),
                0 <= i <= n,
                segments.wf(),
                match best {
                    Some(sid) => 0 <= best_i < i && segments@[best_i].0 == sid
                        && spec_segment_eligible(segments@[best_i].1, self.thresholds_config)
                        && best_count == segments@[best_i].1.points.dom().len() && (forall|j: int|
                        0 <= j < i && spec_segment_eligible(
                            (#[trigger] segments@[j]).1,
                            self.thresholds_config,
                        ) ==> segments@[j].1.points.dom().len() <= best_count),
                    None => forall|j: int| 0 <= j < i ==> !spec_segment_eligible(
                        (#[trigger] segments@[j]).1,
                        self.thresholds_config,
                    ),
                },
            decreases n - i,
        {
            let (sid, seg) = segments.segment_at(i);
            let count = seg.vectors_count();
            let is_plain = seg.segment_type() == SegmentType::Plain;
            let min_thr = if self.thresholds_config.memmap_threshold
                <= self.thresholds_config.indexing_threshold {
                self.thresholds_config.memmap_threshold
            } else {
                self.thresholds_config.indexing_threshold
            };
            let has_fields = seg.get_indexed_fields().len() > 0;
            let eligible = is_plain && (count >= min_thr || (has_fields && count
                >= self.thresholds_config.payload_indexing_threshold));
            proof {
                assert(eligible == spec_segment_eligible(segments@[i as int].1, self.thresholds_config));
            }
            if eligible {
                match best {
                    None => {
                        best = Some(sid);
                        best_count = count;
                        proof {
                            best_i = i as int;
                        }
                    },
                    Some(_) => {
                        if count >= best_count {
                            best = Some(sid);
                            best_count = count;
                            proof {
                                best_i = i as int;
                            }
                        }
                    },
                }
            }
            i += 1;
        }
        best
    }

    /// Rewrite the given segments into one indexed replacement and
    /// swap it into the holder. The swap is atomic from the point of
    /// view of every reader; when it would leave no appendable
    /// segment, a fresh empty appendable one is registered in the same
    /// step, so that the collection never loses the ability to accept
    /// writes.
    #[verifier::rlimit(50)]
    pub fn optimize(&self, segments: &mut SegmentHolder, ids: Vec<SegmentId>) -> (r:
        CollectionResult<bool>)
        requires
            old(segments).wf(),
            sh_disjoint(old(segments)@),
            old(segments).id_headroom() >= 2,
            ids@.len() > 0,
            forall|a: int, b: int| 0 <= a < b < ids@.len() ==> ids@[a] != ids@[b],
            forall|a: int| 0 <= a < ids@.len() ==> sh_has(old(segments)@, #[trigger] ids@[a]),
            forall|a: int|
                0 <= a < ids@.len() ==> sh_view(old(segments)@, #[trigger] ids@[a])
                    .config.vector_size == self.collection_params.vector_size,
        ensures
            final(segments).wf(),
            sh_disjoint(final(segments)@),
            sh_points(final(segments)@) == sh_points(old(segments)@),
            sh_has_appendable(final(segments)@),
            forall|i: int|
                0 <= i < old(segments)@.len() && !ids@.contains((#[trigger] old(segments)@[i]).0)
                    ==> exists|j: int|
                    0 <= j < final(segments)@.len() && final(segments)@[j] == old(segments)@[i],
            forall|sid: SegmentId| ids@.contains(sid) ==> !sh_has(final(segments)@, sid),
            exists|j: int|
                0 <= j < final(segments)@.len() && !sh_has(
                    old(segments)@,
                    (#[trigger] final(segments)@[j]).0,
                ) && spec_replacement_ok(final(segments)@[j].1, old(segments)@, ids@, *self),
            (r matches Ok(b) && b),
    {
        proof {
            old(segments).lemma_wf_unique();
            old(segments).lemma_ids_bound();
        }
        let ghost pre = segments@;
        let n_ids = ids.len();

        // First pass: the candidates' total live count and greatest
        // version.
        let mut total: usize = 0;
        let mut vmax: crate::SeqNumberType = 0;
        let mut k: usize = 0;
        while k < n_ids
            invariant
                n_ids == ids@.len(),
                0 <= k <= n_ids,
                segments.wf(),
                segments@ == pre,
                forall|a: int| 0 <= a < ids@.len() ==> sh_has(pre, #[trigger] ids@[a]),
                total <= ids_total_count(pre, ids@, k as int),
                total == ids_total_count(pre, ids@, k as int) || total == usize::MAX,
                forall|j: int| 0 <= j < k ==> sh_view(pre, #[trigger] ids@[j]).version <= vmax,
            decreases n_ids - k,
        {
            match segments.get(ids[k]) {
                None => {
                    proof {
                        assert(false);
                    }
                },
                Some(seg) => {
                    proof {
                        segments.lemma_wf_unique();
                        let i = choose|i: int|
                            0 <= i < segments@.len() && #[trigger] segments@[i] == (
                            ids@[k as int],
                            seg@,
                        );
                        lemma_sh_view(pre, i);
                        assert(sh_view(pre, ids@[k as int]) == seg@);
                    }
                    let c = seg.vectors_count();
                    if total > usize::MAX - c {
                        total = usize::MAX;
                    } else {
                        total = total + c;
                    }
                    let v = seg.version();
                    if v > vmax {
                        vmax = v;
                    }
                },
            }
            k += 1;
        }
        let use_mmap = total >= self.thresholds_config.memmap_threshold;
        proof {
            assert(use_mmap == (ids_total_count(pre, ids@, n_ids as int)
                >= self.thresholds_config.memmap_threshold));
        }
        let config = SegmentConfig {
            vector_size: self.collection_params.vector_size,
            distance: self.collection_params.distance,
            index: Indexes::Hnsw(self.hnsw_config),
            payload_index: Some(PayloadIndexType::Struct),
            storage_type: if use_mmap {
                StorageType::Mmap
            } else {
                StorageType::InMemory
            },
        };
        let mut replacement = Segment::create(vmax, &config);

        // Second pass: stream live points and indexed fields of every
        // candidate into the replacement.
        let mut k2: usize = 0;
        while k2 < n_ids
            invariant
                n_ids == ids@.len(),
                0 <= k2 <= n_ids,
                segments.wf(),
                segments@ == pre,
                sh_disjoint(pre),
                forall|a: int, b: int| 0 <= a < b < ids@.len() ==> ids@[a] != ids@[b],
                forall|a: int| 0 <= a < ids@.len() ==> sh_has(pre, #[trigger] ids@[a]),
                forall|a: int|
                    0 <= a < ids@.len() ==> sh_view(pre, #[trigger] ids@[a]).config.vector_size
                        == self.collection_params.vector_size,
                replacement.wf(),
                replacement@.config == config,
                replacement@.version == vmax,
                replacement@.persisted_version == vmax,
                replacement@.points == ids_points(pre, ids@, k2 as int),
                config.vector_size == self.collection_params.vector_size,
                forall|j: int, key: Seq<char>|
                    0 <= j < k2 && #[trigger] sh_view(pre, ids@[j]).indexed_fields.contains(key)
                        ==> replacement@.indexed_fields.contains(key),
            decreases n_ids - k2,
        {
            match segments.get(ids[k2]) {
                None => {
                    proof {
                        assert(false);
                    }
                },
                Some(seg) => {
                    proof {
                        segments.lemma_wf_unique();
                        let i = choose|i: int|
                            0 <= i < segments@.len() && #[trigger] segments@[i] == (
                            ids@[k2 as int],
                            seg@,
                        );
                        lemma_sh_view(pre, i);
                        assert(sh_view(pre, ids@[k2 as int]) == seg@);
                        seg.lemma_raw_points();
                    }
                    let m = seg.raw_len();
                    let mut p: usize = 0;
                    while p < m
                        invariant
                            n_ids == ids@.len(),
                            0 <= k2 < n_ids,
                            0 <= p <= m,
                            sh_disjoint(pre),
                            forall|a: int, b: int| 0 <= a < b < ids@.len() ==> ids@[a] != ids@[b],
                            forall|a: int| 0 <= a < ids@.len() ==> sh_has(pre, #[trigger] ids@[a]),
                            sh_unique(pre),
                            seg.wf(),
                            m == seg.raw_points().len(),
                            sh_view(pre, ids@[k2 as int]) == seg@,
                            replacement.wf(),
                            replacement@.config == config,
                            replacement@.version == vmax,
                            replacement@.persisted_version == vmax,
                            forall|j: int, key: Seq<char>|
                                0 <= j < k2 && #[trigger] sh_view(pre, ids@[j])
                                    .indexed_fields.contains(key)
                                    ==> replacement@.indexed_fields.contains(key),
                            config.vector_size == self.collection_params.vector_size,
                            seg@.config.vector_size == self.collection_params.vector_size,
                            replacement@.points == ids_points(
                                pre,
                                ids@,
                                k2 as int,
                            ).union_prefer_right(
                                crate::segment::points_map(seg.raw_points().take(p as int)),
                            ),
                        decreases m - p,
                    {
                        proof {
                            seg.lemma_raw_points();
                        }
                        let sp = seg.raw_at(p);
                        let np = StoredPoint {
                            id: sp.id,
                            vector: copy_elems(&sp.vector),
                            payload: sp.payload.duplicate(),
                        };
                        proof {
                            seg.lemma_raw_points();
                            seg.lemma_wf_inv();
                            let raw = seg.raw_points();
                            crate::segment::lemma_points_map_value(raw, p as int);
                            assert(seg@.points.contains_key(raw[p as int].id));
                            assert(seg@.points[raw[p as int].id].vector.len()
                                == seg@.config.vector_size);
                            lemma_ids_points_dom(pre, ids@, k2 as int, raw[p as int].id);
                            if ids_points(pre, ids@, k2 as int).contains_key(raw[p as int].id) {
                                let j = choose|j: int|
                                    0 <= j < k2 && sh_view(pre, #[trigger] ids@[j])
                                        .points.contains_key(raw[p as int].id);
                                lemma_distinct_views_disjoint(
                                    pre,
                                    ids@[j],
                                    ids@[k2 as int],
                                    raw[p as int].id,
                                );
                            }
                            crate::segment::lemma_points_map_dom(
                                raw.take(p as int),
                                raw[p as int].id,
                            );
                            if crate::segment::points_map(raw.take(p as int)).contains_key(
                                raw[p as int].id,
                            ) {
                                let q = choose|q: int|
                                    0 <= q < p && raw.take(p as int)[q].id == raw[p as int].id;
                                assert(raw[q].id == raw[p as int].id);
                            }
                            assert(!replacement@.points.contains_key(np.id));
                            assert(stored_point_view(np) == stored_point_view(raw[p as int]));
                        }
                        replacement.ingest_point(np);
                        proof {
                            let raw = seg.raw_points();
                            assert(raw.take(p + 1).drop_last() =~= raw.take(p as int));
                            assert(raw.take(p + 1).last() == raw[p as int]);
                            assert(crate::segment::points_map(raw.take(p + 1))
                                == crate::segment::points_map(raw.take(p as int)).insert(
                                raw[p as int].id,
                                stored_point_view(raw[p as int]),
                            ));
                            assert(replacement@.points =~= ids_points(
                                pre,
                                ids@,
                                k2 as int,
                            ).union_prefer_right(crate::segment::points_map(raw.take(p + 1))));
                        }
                        p += 1;
                    }
                    proof {
                        let raw = seg.raw_points();
                        assert(raw.take(m as int) =~= raw);
                        seg.lemma_raw_points();
                        assert(replacement@.points =~= ids_points(pre, ids@, k2 + 1));
                    }
                    let fields = seg.get_indexed_fields();
                    let nf = fields.len();
                    let mut f: usize = 0;
                    while f < nf
                        invariant
                            n_ids == ids@.len(),
                            0 <= k2 < n_ids,
                            0 <= f <= nf,
                            nf == fields@.len(),
                            sh_view(pre, ids@[k2 as int]) == seg@,
                            seg.wf(),
                            replacement.wf(),
                            replacement@.config == config,
                            replacement@.version == vmax,
                            replacement@.persisted_version == vmax,
                            replacement@.points == ids_points(pre, ids@, k2 + 1),
                            forall|j: int| 0 <= j < fields@.len() ==> seg@.indexed_fields.contains(
                                (#[trigger] fields@[j])@,
                            ),
                            forall|key: Seq<char>| seg@.indexed_fields.contains(key) ==> exists|
                                j: int,
                            |
                                0 <= j < fields@.len() && (#[trigger] fields@[j])@ == key,
                            forall|j: int, key: Seq<char>|
                                0 <= j < k2 && #[trigger] sh_view(pre, ids@[j])
                                    .indexed_fields.contains(key)
                                    ==> replacement@.indexed_fields.contains(key),
                            forall|j: int| 0 <= j < f ==> replacement@.indexed_fields.contains(
                                (#[trigger] fields@[j])@,
                            ),
                        decreases nf - f,
                    {
                        replacement.mark_indexed(fields[f].clone());
                        f += 1;
                    }
                    proof {
                        assert forall|j: int, key: Seq<char>|
                            0 <= j < k2 + 1 && #[trigger] sh_view(pre, ids@[j])
                                .indexed_fields.contains(key) implies replacement@
                            .indexed_fields.contains(key) by {
                            if j == k2 {
                                let fj = choose|fj: int|
                                    0 <= fj < fields@.len() && (#[trigger] fields@[fj])@ == key;
                                assert(replacement@.indexed_fields.contains(fields@[fj]@));
                            }
                        }
                    }
                },
            }
            k2 += 1;
        }

        // Swap, and carve out a fresh appendable segment when the
        // replacement left none.
        let ghost repl_view = replacement@;
        let new_sid = segments.swap(&ids, replacement);
        proof {
            lemma_swap_preserves_points(pre, ids@, segments@, new_sid, repl_view);
            lemma_sh_retain_complete(pre, ids@);
            lemma_sh_retain_unique(pre, ids@);
            segments.lemma_ids_bound();
        }
        let ghost after_swap = segments@;
        let apps = segments.appendable_segments();
        if apps.len() == 0 {
            let fresh_config = SegmentConfig {
                vector_size: self.collection_params.vector_size,
                distance: self.collection_params.distance,
                index: Indexes::Plain,
                payload_index: Some(PayloadIndexType::Plain),
                storage_type: StorageType::InMemory,
            };
            let fresh = Segment::create(0, &fresh_config);
            let ghost fresh_view = fresh@;
            let fresh_sid = segments.add(fresh);
            proof {
                lemma_push_empty_points(after_swap, fresh_sid, fresh_view);
                assert(spec_is_appendable(fresh_config));
                assert(segments@[after_swap.len() as int].1.config == fresh_config);
                assert(sh_has_appendable(segments@));
                let rt = sh_retain(pre, ids@);
                assert forall|i: int|
                    0 <= i < pre.len() && !ids@.contains((#[trigger] pre[i]).0) implies exists|
                    j: int,
                |
                    0 <= j < segments@.len() && segments@[j] == pre[i] by {
                    let j = choose|j: int| 0 <= j < rt.len() && rt[j] == pre[i];
                    assert(segments@[j] == pre[i]);
                }
                assert forall|sid: SegmentId| ids@.contains(sid) implies !sh_has(
                    segments@,
                    sid,
                ) by {
                    if sh_has(segments@, sid) {
                        let j = choose|j: int| 0 <= j < segments@.len() && segments@[j].0 == sid;
                        if j < rt.len() {
                            assert(sh_has(rt, sid));
                        } else if j == rt.len() {
                            assert(sh_has(pre, sid));
                        } else {
                            assert(segments@[j].0 == fresh_sid);
                            assert(sh_has(pre, sid));
                        }
                    }
                }
                assert(segments@[rt.len() as int].1 == repl_view);
                assert(!sh_has(pre, segments@[rt.len() as int].0));
                assert(spec_replacement_ok(repl_view, pre, ids@, *self));
            }
        } else {
            proof {
                let rt = sh_retain(pre, ids@);
                assert forall|i: int|
                    0 <= i < pre.len() && !ids@.contains((#[trigger] pre[i]).0) implies exists|
                    j: int,
                |
                    0 <= j < segments@.len() && segments@[j] == pre[i] by {
                    let j = choose|j: int| 0 <= j < rt.len() && rt[j] == pre[i];
                    assert(segments@[j] == pre[i]);
                }
                assert forall|sid: SegmentId| ids@.contains(sid) implies !sh_has(
                    segments@,
                    sid,
                ) by {
                    if sh_has(segments@, sid) {
                        let j = choose|j: int| 0 <= j < segments@.len() && segments@[j].0 == sid;
                        if j < rt.len() {
                            assert(sh_has(rt, sid));
                        } else {
                            assert(sh_has(pre, sid));
                        }
                    }
                }
                assert(segments@[rt.len() as int].1 == repl_view);
                assert(!sh_has(pre, segments@[rt.len() as int].0));
                assert(spec_replacement_ok(repl_view, pre, ids@, *self));
            }
        }
        Ok(true)
    }

    /// Ids of the segments the optimizer would rewrite: the worst
    /// segment, or nothing.
    pub fn check_condition(&self, segments: &SegmentHolder) -> (r: Vec<SegmentId>)
        requires
            segments.wf(),
        ensures
            r@.len() <= 1,
            r@.len() == 0 ==> forall|j: int| 0 <= j < segments@.len() ==> !spec_segment_eligible(
                (#[trigger] segments@[j]).1,
                self.thresholds_config,
            ),
            r@.len() == 1 ==> exists|i: int|
                0 <= i < segments@.len() && (#[trigger] segments@[i]).0 == r@[0]
                    && spec_segment_eligible(segments@[i].1, self.thresholds_config) && (forall|
                j: int,
            |
                    0 <= j < segments@.len() && spec_segment_eligible(
                        (#[trigger] segments@[j]).1,
                        self.thresholds_config,
                    ) ==> segments@[j].1.points.dom().len() <= segments@[i].1.points.dom().len()),
    {
        match self.worst_segment(segments) {
            None => Vec::new(),
            Some(segment_id) => {
                let mut r: Vec<SegmentId> = Vec::new();
                r.push(segment_id);
                r
            },
        }
    }
}

} // verus!
