//! Payload values, the per-point payload map, and payload filters.

use vstd::prelude::*;
use crate::PayloadKeyType;

verus! {

/// A geographical coordinate. Both components are carried as the bit
/// patterns of IEEE 754 double-precision numbers; the library never
/// computes with them.
#[derive(Clone, Copy, Debug, PartialEq, Eq, Structural)]
pub struct GeoPoint {
    pub lon_bits: u64,
    pub lat_bits: u64,
}

/// A tagged payload value: a list of keywords, integers, floats
/// (carried as bit patterns) or geographical points.
#[derive(Clone, Debug)]
pub enum PayloadType {
    Keyword(Vec<String>),
    Integer(Vec<i64>),
    Float(Vec<u64>),
    Geo(Vec<GeoPoint>),
}

/// Mathematical value of a payload entry.
pub enum PayloadValueView {
    Keyword(Seq<Seq<char>>),
    Integer(Seq<i64>),
    Float(Seq<u64>),
    Geo(Seq<GeoPoint>),
}

impl View for PayloadType {
    type V = PayloadValueView;

    open spec fn view(&self) -> PayloadValueView {
        match self {
            PayloadType::Keyword(v) => PayloadValueView::Keyword(v@.map_values(|s: String| s@)),
            PayloadType::Integer(v) => PayloadValueView::Integer(v@),
            PayloadType::Float(v) => PayloadValueView::Float(v@),
            PayloadType::Geo(v) => PayloadValueView::Geo(v@),
        }
    }
}

/// Keys of an entry sequence are pairwise distinct.
pub open spec fn unique_keys(s: Seq<(PayloadKeyType, PayloadType)>) -> bool {
    forall|i: int, j: int| 0 <= i < j < s.len() ==> s[i].0@ != s[j].0@
}

/// Mathematical map described by an entry sequence.
pub open spec fn entries_map(s: Seq<(PayloadKeyType, PayloadType)>) -> Map<
    Seq<char>,
    PayloadValueView,
>
    decreases s.len(),
{
    if s.len() == 0 {
        Map::empty()
    } else {
        entries_map(s.drop_last()).insert(s.last().0@, s.last().1@)
    }
}

/// A key is in the map exactly when some entry carries it.
pub proof fn lemma_entries_map_dom(s: Seq<(PayloadKeyType, PayloadType)>, k: Seq<char>)
    ensures
        entries_map(s).contains_key(k) <==> exists|i: int| 0 <= i < s.len() && s[i].0@ == k,
    decreases s.len(),
{
    if s.len() > 0 {
        lemma_entries_map_dom(s.drop_last(), k);
        if s.last().0@ == k {
            assert(s[s.len() - 1].0@ == k);
        } else if entries_map(s).contains_key(k) {
            let i = choose|i: int| 0 <= i < s.drop_last().len() && s.drop_last()[i].0@ == k;
            assert(s[i].0@ == k);
        } else if exists|i: int| 0 <= i < s.len() && s[i].0@ == k {
            let i = choose|i: int| 0 <= i < s.len() && s[i].0@ == k;
            assert(s.drop_last()[i].0@ == k);
        }
    }
}

/// Under distinct keys, the map sends each entry's key to its value.
pub proof fn lemma_entries_map_value(s: Seq<(PayloadKeyType, PayloadType)>, i: int)
    requires
        unique_keys(s),
        0 <= i < s.len(),
    ensures
        entries_map(s).contains_key(s[i].0@),
        entries_map(s)[s[i].0@] == s[i].1@,
    decreases s.len(),
{
    lemma_entries_map_dom(s, s[i].0@);
    if i < s.len() - 1 {
        assert(s.drop_last()[i] == s[i]);
        lemma_entries_map_value(s.drop_last(), i);
        assert(s.last().0@ != s[i].0@);
    }
}

/// A payload: a finite map from payload keys to tagged values, stored
/// as an association list with pairwise distinct keys.
#[derive(Clone, Debug)]
pub struct PayloadMap {
    entries: Vec<(PayloadKeyType, PayloadType)>,
}

impl View for PayloadMap {
    type V = Map<Seq<char>, PayloadValueView>;

    closed spec fn view(&self) -> Map<Seq<char>, PayloadValueView> {
        entries_map(self.entries@)
    }
}

impl PayloadMap {
    /// Internal representation keeps one entry per key.
    pub closed spec fn wf(&self) -> bool {
        unique_keys(self.entries@)
    }

    /// The empty payload.
    pub fn new() -> (r: Self)
        ensures
            r.wf(),
            r@ == Map::<Seq<char>, PayloadValueView>::empty(),
    {
        PayloadMap { entries: Vec::new() }
    }

    /// Look a key up.
    pub fn get(&self, key: &PayloadKeyType) -> (r: Option<&PayloadType>)
        requires
            self.wf(),
        ensures
            match r {
                Some(v) => self@.contains_key(key@) && v@ == self@[key@],
                None => !self@.contains_key(key@),
            },
    {
        let n = self.entries.len();
        let mut i: usize = 0;
        while i < n
            invariant
                n == self.entries.len(),
                0 <= i <= n,
                self.wf(),
                forall|j: int| 0 <= j < i ==> self.entries@[j].0@ != key@,
            decreases n - i,
        {
            if self.entries[i].0 == *key {
                proof {
                    lemma_entries_map_value(self.entries@, i as int);
                }
                return Some(&self.entries[i].1);
            }
            i += 1;
        }
        proof {
            lemma_entries_map_dom(self.entries@, key@);
        }
        None
    }

    /// Does the payload carry this key?
    pub fn contains_key(&self, key: &PayloadKeyType) -> (r: bool)
        requires
            self.wf(),
        ensures
            r == self@.contains_key(key@),
    {
        self.get(key).is_some()
    }

    /// Set a key to a value, replacing any previous value of the key.
    pub fn insert(&mut self, key: PayloadKeyType, value: PayloadType)
        requires
            old(self).wf(),
        ensures
            final(self).wf(),
            final(self)@ == old(self)@.insert(key@, value@),
    {
        let n = self.entries.len();
        let mut i: usize = 0;
        while i < n
            invariant
                n == self.entries.len(),
                0 <= i <= n,
                self.wf(),
                self.entries@ == old(self).entries@,
                forall|j: int| 0 <= j < i ==> self.entries@[j].0@ != key@,
            decreases n - i,
        {
            if self.entries[i].0 == key {
                proof {
                    lemma_entries_map_value(self.entries@, i as int);
                }
                let ghost pre = self.entries@;
                self.entries[i] = (key, value);
                proof {
                    let post = self.entries@;
                    assert forall|p: int, q: int| 0 <= p < q < post.len() implies post[p].0@
                        != post[q].0@ by {
                        assert(pre[p].0@ != pre[q].0@);
                    }
                    lemma_entries_map_congruence(pre, post, i as int);
                }
                return ;
            }
            i += 1;
        }
        proof {
            lemma_entries_map_dom(self.entries@, key@);
        }
        let ghost pre = self.entries@;
        self.entries.push((key, value));
        proof {
            assert(self.entries@.drop_last() =~= pre);
        }
    }

    /// Remove a key; without the key the payload is unchanged.
    pub fn remove(&mut self, key: &PayloadKeyType)
        requires
            old(self).wf(),
        ensures
            final(self).wf(),
            final(self)@ == old(self)@.remove(key@),
    {
        let n = self.entries.len();
        let mut i: usize = 0;
        while i < n
            invariant
                n == self.entries.len(),
                0 <= i <= n,
                self.wf(),
                self.entries@ == old(self).entries@,
                forall|j: int| 0 <= j < i ==> self.entries@[j].0@ != key@,
            decreases n - i,
        {
            if self.entries[i].0 == *key {
                let ghost pre = self.entries@;
                self.entries.remove(i);
                proof {
                    let post = self.entries@;
                    assert forall|p: int, q: int| 0 <= p < q < post.len() implies post[p].0@
                        != post[q].0@ by {
                        let p0: int = if p < i { p } else { p + 1 };
                        let q0: int = if q < i { q } else { q + 1 };
                        assert(post[p] == pre[p0] && post[q] == pre[q0]);
                        assert(pre[p0].0@ != pre[q0].0@);
                    }
                    lemma_entries_map_removed(pre, post, i as int);
                }
                return ;
            }
            i += 1;
        }
        proof {
            lemma_entries_map_dom(self.entries@, key@);
            assert(self@ =~= self@.remove(key@));
        }
    }

    /// A copy with the same mathematical value.
    pub fn duplicate(&self) -> (r: PayloadMap)
        requires
            self.wf(),
        ensures
            r.wf(),
            r@ == self@,
    {
        let n = self.entries.len();
        let mut entries: Vec<(PayloadKeyType, PayloadType)> = Vec::new();
        let mut i: usize = 0;
        while i < n
            invariant
                n == self.entries.len(),
                0 <= i <= n,
                self.wf(),
                entries@.len() == i,
                forall|j: int| 0 <= j < i ==> (#[trigger] entries@[j]).0@ == self.entries@[j].0@
                    && entries@[j].1@ == self.entries@[j].1@,
            decreases n - i,
        {
            entries.push((self.entries[i].0.clone(), self.entries[i].1.duplicate()));
            i += 1;
        }
        let r = PayloadMap { entries };
        proof {
            lemma_entries_map_viewwise(r.entries@, self.entries@);
        }
        r
    }

    /// Merge another payload into this one; its values win on shared
    /// keys.
    pub fn merge(&mut self, patch: &PayloadMap)
        requires
            old(self).wf(),
            patch.wf(),
        ensures
            final(self).wf(),
            final(self)@ == old(self)@.union_prefer_right(patch@),
    {
        let n = patch.entries.len();
        let mut i: usize = 0;
        while i < n
            invariant
                n == patch.entries.len(),
                0 <= i <= n,
                self.wf(),
                patch.wf(),
                self@ == old(self)@.union_prefer_right(entries_map(patch.entries@.take(i as int))),
            decreases n - i,
        {
            let key = patch.entries[i].0.clone();
            let value = patch.entries[i].1.duplicate();
            let ghost prior = self@;
            self.insert(key, value);
            proof {
                let pe = patch.entries@;
                assert(pe.take(i + 1).drop_last() =~= pe.take(i as int));
                assert(pe.take(i + 1).last() == pe[i as int]);
                assert(entries_map(pe.take(i + 1)) == entries_map(pe.take(i as int)).insert(
                    pe[i as int].0@,
                    pe[i as int].1@,
                ));
                assert(self@ =~= old(self)@.union_prefer_right(entries_map(pe.take(i + 1))));
            }
            i += 1;
        }
        proof {
            assert(patch.entries@.take(n as int) =~= patch.entries@);
            assert(self@ =~= old(self)@.union_prefer_right(patch@));
        }
    }

    /// Keys of the payload, one occurrence each.
    pub fn keys(&self) -> (r: Vec<PayloadKeyType>)
        requires
            self.wf(),
        ensures
            forall|j: int| 0 <= j < r@.len() ==> self@.contains_key(#[trigger] r@[j]@),
            forall|k: Seq<char>| self@.contains_key(k) ==> exists|j: int|
                0 <= j < r@.len() && r@[j]@ == k,
    {
        let n = self.entries.len();
        let mut r: Vec<PayloadKeyType> = Vec::new();
        let mut i: usize = 0;
        while i < n
            invariant
                n == self.entries.len(),
                0 <= i <= n,
                self.wf(),
                r@.len() == i,
                forall|j: int| 0 <= j < i ==> r@[j]@ == self.entries@[j].0@,
            decreases n - i,
        {
            r.push(self.entries[i].0.clone());
            i += 1;
        }
        proof {
            assert forall|j: int| 0 <= j < r@.len() implies self@.contains_key(
                #[trigger] r@[j]@,
            ) by {
                lemma_entries_map_value(self.entries@, j);
            }
            assert forall|k: Seq<char>| self@.contains_key(k) implies exists|j: int|
                0 <= j < r@.len() && r@[j]@ == k by {
                lemma_entries_map_dom(self.entries@, k);
                let j = choose|j: int| 0 <= j < self.entries@.len() && self.entries@[j].0@ == k;
                assert(r@[j]@ == k);
            }
        }
        r
    }
}

/// Copy a vector of plain values.
pub(crate) fn copy_elems<T: Copy>(v: &Vec<T>) -> (r: Vec<T>)
    ensures
        r@ == v@,
{
    let n = v.len();
    let mut r: Vec<T> = Vec::new();
    let mut i: usize = 0;
    while i < n
        invariant
            n == v.len(),
            0 <= i <= n,
            r@ == v@.take(i as int),
        decreases n - i,
    {
        r.push(v[i]);
        proof {
            assert(r@ =~= v@.take(i + 1));
        }
        i += 1;
    }
    proof {
        assert(r@ =~= v@);
    }
    r
}

/// Copy a vector of strings.
fn copy_strings(v: &Vec<String>) -> (r: Vec<String>)
    ensures
        r@ == v@,
{
    let n = v.len();
    let mut r: Vec<String> = Vec::new();
    let mut i: usize = 0;
    while i < n
        invariant
            n == v.len(),
            0 <= i <= n,
            r@ == v@.take(i as int),
        decreases n - i,
    {
        r.push(v[i].clone());
        proof {
            assert(r@ =~= v@.take(i + 1));
        }
        i += 1;
    }
    proof {
        assert(r@ =~= v@);
    }
    r
}

impl PayloadType {
    /// A copy with the same mathematical value.
    pub fn duplicate(&self) -> (r: PayloadType)
        ensures
            r@ == self@,
    {
        match self {
            PayloadType::Keyword(v) => PayloadType::Keyword(copy_strings(v)),
            PayloadType::Integer(v) => PayloadType::Integer(copy_elems(v)),
            PayloadType::Float(v) => PayloadType::Float(copy_elems(v)),
            PayloadType::Geo(v) => PayloadType::Geo(copy_elems(v)),
        }
    }
}

/// Entry sequences of pointwise equal key and value views describe the
/// same map.
proof fn lemma_entries_map_viewwise(
    s1: Seq<(PayloadKeyType, PayloadType)>,
    s2: Seq<(PayloadKeyType, PayloadType)>,
)
    requires
        s1.len() == s2.len(),
        forall|j: int| 0 <= j < s1.len() ==> (#[trigger] s1[j]).0@ == s2[j].0@ && s1[j].1@
            == s2[j].1@,
    ensures
        entries_map(s1) == entries_map(s2),
    decreases s1.len(),
{
    if s1.len() > 0 {
        lemma_entries_map_viewwise(s1.drop_last(), s2.drop_last());
    }
}

/// Two entry sequences of the same distinct keys that agree everywhere
/// but in the value at one position describe maps that differ by one
/// insertion.
proof fn lemma_entries_map_congruence(
    pre: Seq<(PayloadKeyType, PayloadType)>,
    post: Seq<(PayloadKeyType, PayloadType)>,
    i: int,
)
    requires
        unique_keys(pre),
        unique_keys(post),
        pre.len() == post.len(),
        0 <= i < pre.len(),
        post[i].0@ == pre[i].0@,
        forall|j: int| 0 <= j < pre.len() && j != i ==> post[j] == pre[j],
    ensures
        entries_map(post) == entries_map(pre).insert(pre[i].0@, post[i].1@),
{
    let lhs = entries_map(post);
    let rhs = entries_map(pre).insert(pre[i].0@, post[i].1@);
    assert forall|k: Seq<char>| lhs.contains_key(k) <==> rhs.contains_key(k) by {
        lemma_entries_map_dom(post, k);
        lemma_entries_map_dom(pre, k);
        assert forall|j: int| 0 <= j < pre.len() implies post[j].0@ == pre[j].0@ by {}
    }
    assert forall|k: Seq<char>| lhs.contains_key(k) implies lhs[k] == rhs[k] by {
        lemma_entries_map_dom(post, k);
        let j = choose|j: int| 0 <= j < post.len() && post[j].0@ == k;
        lemma_entries_map_value(post, j);
        lemma_entries_map_value(pre, j);
        if j != i {
            assert(pre[j].0@ != pre[i].0@);
        }
    }
    assert(lhs =~= rhs);
}

/// Removing the entry at one position removes exactly its key from the
/// described map.
proof fn lemma_entries_map_removed(
    pre: Seq<(PayloadKeyType, PayloadType)>,
    post: Seq<(PayloadKeyType, PayloadType)>,
    i: int,
)
    requires
        unique_keys(pre),
        unique_keys(post),
        0 <= i < pre.len(),
        post.len() == pre.len() - 1,
        forall|j: int| 0 <= j < i ==> post[j] == pre[j],
        forall|j: int| i <= j < post.len() ==> post[j] == pre[j + 1],
    ensures
        entries_map(post) == entries_map(pre).remove(pre[i].0@),
{
    let lhs = entries_map(post);
    let rhs = entries_map(pre).remove(pre[i].0@);
    assert forall|k: Seq<char>| #[trigger] lhs.contains_key(k) implies rhs.contains_key(k) by {
        lemma_entries_map_dom(post, k);
        let j = choose|j: int| 0 <= j < post.len() && post[j].0@ == k;
        let j0: int = if j < i { j } else { j + 1 };
        assert(pre[j0].0@ == k);
        lemma_entries_map_dom(pre, k);
        assert(pre[j0].0@ != pre[i].0@);
    }
    assert forall|k: Seq<char>| #[trigger] rhs.contains_key(k) implies lhs.contains_key(k) by {
        lemma_entries_map_dom(pre, k);
        let j = choose|j: int| 0 <= j < pre.len() && pre[j].0@ == k;
        let j1: int = if j < i { j } else { j - 1 };
        assert(post[j1].0@ == k);
        lemma_entries_map_dom(post, k);
    }
    assert forall|k: Seq<char>| lhs.contains_key(k) implies lhs[k] == rhs[k] by {
        lemma_entries_map_dom(post, k);
        let j = choose|j: int| 0 <= j < post.len() && post[j].0@ == k;
        let j0: int = if j < i { j } else { j + 1 };
        lemma_entries_map_value(post, j);
        lemma_entries_map_value(pre, j0);
    }
    assert(lhs =~= rhs);
}

/// One conjunct of a filter: the payload must carry the key, with the
/// given keyword among its keywords when one is given, and the given
/// integer among its integers when one is given.
#[derive(Clone, Debug)]
pub struct FieldMatch {
    pub key: PayloadKeyType,
    pub keyword: Option<String>,
    pub integer: Option<i64>,
}

/// A single filter condition.
#[derive(Clone, Debug)]
pub enum Condition {
    Match(FieldMatch),
}

/// A filter over payloads: the conjunction of `must`, with every
/// condition of `must_not` excluded.
#[derive(Clone, Debug)]
pub struct Filter {
    pub must: Vec<Condition>,
    pub must_not: Vec<Condition>,
}

/// Does this payload value carry the keyword?
pub open spec fn spec_value_has_keyword(v: PayloadValueView, kw: Seq<char>) -> bool {
    match v {
        PayloadValueView::Keyword(ks) => ks.contains(kw),
        _ => false,
    }
}

/// Does this payload value carry the integer?
pub open spec fn spec_value_has_integer(v: PayloadValueView, n: i64) -> bool {
    match v {
        PayloadValueView::Integer(ns) => ns.contains(n),
        _ => false,
    }
}

/// Meaning of one condition on a payload.
pub open spec fn spec_matches_condition(
    payload: Map<Seq<char>, PayloadValueView>,
    c: Condition,
) -> bool {
    match c {
        Condition::Match(m) => {
            &&& payload.contains_key(m.key@)
            &&& (m.keyword matches Some(kw) ==> spec_value_has_keyword(payload[m.key@], kw@))
            &&& (m.integer matches Some(n) ==> spec_value_has_integer(payload[m.key@], n))
        },
    }
}

/// Meaning of a filter on a payload.
pub open spec fn spec_matches_filter(payload: Map<Seq<char>, PayloadValueView>, f: Filter) -> bool {
    &&& forall|i: int| 0 <= i < f.must@.len() ==> spec_matches_condition(payload, #[trigger] f.must@[i])
    &&& forall|i: int|
        0 <= i < f.must_not@.len() ==> !spec_matches_condition(payload, #[trigger] f.must_not@[i])
}

/// Is the string among the elements of the vector?
fn keyword_list_contains(list: &Vec<String>, kw: &String) -> (r: bool)
    ensures
        r == list@.map_values(|s: String| s@).contains(kw@),
{
    let n = list.len();
    let mut i: usize = 0;
    while i < n
        invariant
            n == list.len(),
            0 <= i <= n,
            forall|j: int| 0 <= j < i ==> list@[j]@ != kw@,
        decreases n - i,
    {
        if list[i] == *kw {
            assert(list@.map_values(|s: String| s@)[i as int] == kw@);
            return true;
        }
        i += 1;
    }
    proof {
        let mapped = list@.map_values(|s: String| s@);
        if mapped.contains(kw@) {
            let j = choose|j: int| 0 <= j < mapped.len() && mapped[j] == kw@;
            assert(list@[j]@ == kw@);
        }
    }
    false
}

/// Is the integer among the elements of the vector?
fn integer_list_contains(list: &Vec<i64>, n: &i64) -> (r: bool)
    ensures
        r == list@.contains(*n),
{
    let len = list.len();
    let mut i: usize = 0;
    while i < len
        invariant
            len == list.len(),
            0 <= i <= len,
            forall|j: int| 0 <= j < i ==> list@[j] != *n,
        decreases len - i,
    {
        if list[i] == *n {
            return true;
        }
        i += 1;
    }
    false
}

/// Decide one condition against a payload.
pub fn matches_condition(payload: &PayloadMap, c: &Condition) -> (r: bool)
    requires
        payload.wf(),
    ensures
        r == spec_matches_condition(payload@, *c),
{
    match c {
        Condition::Match(m) => {
            match payload.get(&m.key) {
                None => false,
                Some(value) => {
                    let kw_ok = match &m.keyword {
                        None => true,
                        Some(kw) => match value {
                            PayloadType::Keyword(ks) => keyword_list_contains(ks, kw),
                            _ => false,
                        },
                    };
                    let int_ok = match &m.integer {
                        None => true,
                        Some(n) => match value {
                            PayloadType::Integer(ns) => integer_list_contains(ns, n),
                            _ => false,
                        },
                    };
                    kw_ok && int_ok
                },
            }
        },
    }
}

/// Decide a filter against a payload.
pub fn matches_filter(payload: &PayloadMap, f: &Filter) -> (r: bool)
    requires
        payload.wf(),
    ensures
        r == spec_matches_filter(payload@, *f),
{
    let n_must = f.must.len();
    let mut i: usize = 0;
    while i < n_must
        invariant
            n_must == f.must.len(),
            0 <= i <= n_must,
            payload.wf(),
            forall|j: int| 0 <= j < i ==> spec_matches_condition(payload@, #[trigger] f.must@[j]),
        decreases n_must - i,
    {
        if !matches_condition(payload, &f.must[i]) {
            return false;
        }
        i += 1;
    }
    let n_not = f.must_not.len();
    let mut k: usize = 0;
    while k < n_not
        invariant
            n_not == f.must_not.len(),
            0 <= k <= n_not,
            payload.wf(),
            forall|j: int| 0 <= j < f.must@.len() ==> spec_matches_condition(
                payload@,
                #[trigger] f.must@[j],
            ),
            forall|j: int| 0 <= j < k ==> !spec_matches_condition(
                payload@,
                #[trigger] f.must_not@[j],
            ),
        decreases n_not - k,
    {
        if matches_condition(payload, &f.must_not[k]) {
            return false;
        }
        k += 1;
    }
    true
}

} // verus!
