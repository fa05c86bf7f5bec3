//! Chunked walks through the chain from an anchor, forwards or backwards,
//! keeping the thoughts a filter matches.
use vstd::prelude::*;
use crate::chain::{MentisDb, ThoughtTraversalAnchor};
use crate::kinds::ThoughtTraversalDirection;
use crate::model::{ChainError, Thought};
use crate::positions::{lemma_pick_split, lemma_pick_skip, pick, strictly_sorted};
use crate::query::{
    index_match, min_int, post_index_match, query_match, query_matches_registry, registry_match, since_point,
    timestamps_sorted, until_point, uses_index, ThoughtQuery, since_index, until_index, lemma_index_points,
};
use crate::registry::AgentRegistry;

verus! {

/// Where a page of a traversal starts or ends.
#[derive(Debug, Clone, PartialEq, Eq)]
pub struct ThoughtTraversalCursor {
    /// Id of the thought.
    pub id: u128,
    /// Index of the thought.
    pub index: u64,
    /// Hash of the thought.
    pub hash: String,
}

/// Whether a cursor points at a thought.
pub open spec fn cursor_of(c: ThoughtTraversalCursor, t: Thought) -> bool {
    c.id == t.id && c.index == t.index && c.hash@ == t.hash@
}

impl ThoughtTraversalCursor {
    /// The cursor of a thought.
    pub fn from_thought(t: &Thought) -> (c: ThoughtTraversalCursor)
        ensures
            cursor_of(c, *t),
    {
        ThoughtTraversalCursor { id: t.id, index: t.index, hash: t.hash.clone() }
    }
}

/// A request for one chunk of a traversal.
pub struct ThoughtTraversalRequest {
    /// Where the walk starts.
    pub anchor: ThoughtTraversalAnchor,
    /// Which way it goes.
    pub direction: ThoughtTraversalDirection,
    /// Whether the anchor itself may be returned.
    pub include_anchor: bool,
    /// How many thoughts a page holds at most.
    pub chunk_size: usize,
    /// Which thoughts are kept; its limit is ignored.
    pub filter: ThoughtQuery,
}

impl ThoughtTraversalRequest {
    /// A request with an empty filter that leaves out the anchor.
    pub fn new(anchor: ThoughtTraversalAnchor, direction: ThoughtTraversalDirection, chunk_size: usize) -> (r: ThoughtTraversalRequest)
        ensures
            r.anchor == anchor,
            r.direction == direction,
            !r.include_anchor,
            r.chunk_size == chunk_size,
            r.filter.thought_types is None && r.filter.roles is None && r.filter.agent_ids is None,
            r.filter.agent_names is None && r.filter.agent_owners is None && r.filter.text_contains is None,
            r.filter.tags_any@.len() == 0 && r.filter.concepts_any@.len() == 0,
            r.filter.min_importance is None && r.filter.min_confidence is None,
            r.filter.since is None && r.filter.until is None && r.filter.limit is None,
            r.filter.entity_type is None && r.filter.source_episode is None,
            !r.filter.include_invalidated && !r.filter.include_dreams,
    {
        ThoughtTraversalRequest { anchor, direction, include_anchor: false, chunk_size, filter: ThoughtQuery::new() }
    }

    /// Whether the anchor itself may be returned.
    pub fn with_include_anchor(self, include_anchor: bool) -> (r: ThoughtTraversalRequest)
        ensures
            r == (ThoughtTraversalRequest { include_anchor, ..self }),
    {
        ThoughtTraversalRequest { include_anchor, ..self }
    }

    /// Which thoughts are kept.
    pub fn with_filter(self, filter: ThoughtQuery) -> (r: ThoughtTraversalRequest)
        ensures
            r == (ThoughtTraversalRequest { filter, ..self }),
    {
        ThoughtTraversalRequest { filter, ..self }
    }
}

impl Default for ThoughtTraversalRequest {
    /// Fifty thoughts forward from the genesis, anchor left out, no filter.
    fn default() -> (r: ThoughtTraversalRequest)
        ensures
            r.anchor == ThoughtTraversalAnchor::Genesis,
            r.direction == ThoughtTraversalDirection::Forward,
            !r.include_anchor,
            r.chunk_size == 50,
    {
        ThoughtTraversalRequest::new(ThoughtTraversalAnchor::Genesis, ThoughtTraversalDirection::Forward, 50)
    }
}

/// One page of a traversal.
pub struct ThoughtTraversalPage<'a> {
    /// The anchor, when it designates a thought.
    pub anchor: Option<ThoughtTraversalCursor>,
    /// The thoughts of the page, in walk order.
    pub thoughts: Vec<&'a Thought>,
    /// Whether further matches lie beyond the page.
    pub has_more: bool,
    /// The last thought of the page.
    pub next_cursor: Option<ThoughtTraversalCursor>,
    /// The first thought of the page.
    pub previous_cursor: Option<ThoughtTraversalCursor>,
}

/// The positions in `lo..hi` that satisfy `pred`, in decreasing order.
pub open spec fn pick_down(pred: spec_fn(int) -> bool, lo: int, hi: int) -> Seq<usize>
    decreases hi - lo,
{
    if hi <= lo {
        Seq::empty()
    } else {
        let rest = pick_down(pred, lo, hi - 1);
        if pred(hi - 1) {
            seq![(hi - 1) as usize] + rest
        } else {
            rest
        }
    }
}

/// Walking down one position further appends that position if it is picked.
proof fn lemma_pick_down_extend(pred: spec_fn(int) -> bool, lo: int, hi: int)
    requires
        lo <= hi,
    ensures
        pick_down(pred, lo - 1, hi) == pick_down(pred, lo, hi) + (if pred(lo - 1) {
            seq![(lo - 1) as usize]
        } else {
            Seq::<usize>::empty()
        }),
    decreases hi - lo,
{
    let tail = if pred(lo - 1) { seq![(lo - 1) as usize] } else { Seq::<usize>::empty() };
    if hi == lo {
        assert(pick_down(pred, lo, hi) =~= Seq::<usize>::empty());
        assert(pick_down(pred, lo - 1, lo - 1) =~= Seq::<usize>::empty());
        if pred(lo - 1) {
            assert(pick_down(pred, lo - 1, hi) =~= seq![(lo - 1) as usize] + Seq::<usize>::empty());
        }
        assert(pick_down(pred, lo - 1, hi) =~= Seq::<usize>::empty() + tail);
    } else {
        lemma_pick_down_extend(pred, lo, hi - 1);
        if pred(hi - 1) {
            assert(seq![(hi - 1) as usize] + pick_down(pred, lo - 1, hi - 1) =~= seq![(hi - 1) as usize] + pick_down(pred, lo, hi - 1)
                + tail);
        }
    }
}

/// Walking down from `hi` to `lo` passes `m`: the walk to `m` comes first.
proof fn lemma_pick_down_split(pred: spec_fn(int) -> bool, lo: int, m: int, hi: int)
    requires
        lo <= m <= hi,
    ensures
        pick_down(pred, lo, hi) == pick_down(pred, m, hi) + pick_down(pred, lo, m),
    decreases m - lo,
{
    if lo == m {
        assert(pick_down(pred, lo, m) =~= Seq::<usize>::empty());
        assert(pick_down(pred, m, hi) + Seq::<usize>::empty() =~= pick_down(pred, m, hi));
    } else {
        lemma_pick_down_split(pred, lo + 1, m, hi);
        lemma_pick_down_extend(pred, lo + 1, hi);
        lemma_pick_down_extend(pred, lo + 1, m);
        assert(pick_down(pred, lo, hi) =~= pick_down(pred, m, hi) + pick_down(pred, lo, m));
    }
}

/// Extending a downward walk past positions that fail `pred` changes nothing.
proof fn lemma_pick_down_skip(pred: spec_fn(int) -> bool, a: int, b: int, hi: int)
    requires
        a <= b <= hi,
        forall|p: int| a <= p < b ==> !#[trigger] pred(p),
    ensures
        pick_down(pred, a, hi) == pick_down(pred, b, hi),
    decreases b - a,
{
    if a < b {
        lemma_pick_down_skip(pred, a + 1, b, hi);
        lemma_pick_down_extend(pred, a + 1, hi);
        assert(!pred(a));
        assert(pick_down(pred, a, hi) =~= pick_down(pred, a + 1, hi));
    }
}

/// Whether a walk keeps the thought at `p`. Through the indexes it keeps
/// candidates within `s..e` that pass the remaining filters; otherwise it
/// keeps the thoughts the filter matches. Unlike a query, a walk does not
/// leave out hidden thoughts or dreams.
pub open spec fn walk_selects(thoughts: Seq<Thought>, reg: AgentRegistry, q: ThoughtQuery, s: int, e: int, p: int) -> bool {
    if uses_index(q) {
        s <= p < e && index_match(q, reg, thoughts[p]) && post_index_match(q, thoughts[p]) && registry_match(reg, q, thoughts[p])
    } else {
        query_match(q, thoughts[p]) && registry_match(reg, q, thoughts[p])
    }
}

/// Every match of a walk from `anchor`, in walk order.
pub open spec fn walk_matches(
    thoughts: Seq<Thought>,
    reg: AgentRegistry,
    q: ThoughtQuery,
    s: int,
    e: int,
    anchor: int,
    direction: ThoughtTraversalDirection,
    include_anchor: bool,
) -> Seq<usize> {
    let pred = |p: int| walk_selects(thoughts, reg, q, s, e, p);
    match direction {
        ThoughtTraversalDirection::Forward => pick(pred, if include_anchor { anchor } else { anchor + 1 }, thoughts.len() as int),
        ThoughtTraversalDirection::Backward => pick_down(pred, 0, if include_anchor { anchor + 1 } else { anchor }),
    }
}

/// The first `n` elements, or all of them.
pub open spec fn first_at_most(m: Seq<usize>, n: int) -> Seq<usize> {
    if m.len() > n {
        m.take(n)
    } else {
        m
    }
}

/// First position of a sorted list whose element is at least `x`.
fn sorted_lower_bound(v: &[usize], x: usize) -> (r: usize)
    requires
        strictly_sorted(v@),
    ensures
        r <= v@.len(),
        r == 0 || v@[r - 1] < x,
        r == v@.len() || v@[r as int] >= x,
{
    let mut lo: usize = 0;
    let mut hi: usize = v.len();
    while lo < hi
        invariant
            strictly_sorted(v@),
            lo <= hi <= v@.len(),
            lo == 0 || v@[lo - 1] < x,
            hi == v@.len() || v@[hi as int] >= x,
        decreases hi - lo,
    {
        let mid = lo + (hi - lo) / 2;
        if v[mid] < x {
            lo = mid + 1;
        } else {
            hi = mid;
        }
    }
    lo
}

/// A position between two neighbouring elements of a sorted list is not in it.
proof fn lemma_between(c: Seq<usize>, k: int, p: usize)
    requires
        strictly_sorted(c),
        0 <= k <= c.len(),
        k == 0 || c[k - 1] < p,
        k == c.len() || p < c[k],
    ensures
        !c.contains(p),
{
    if c.contains(p) {
        let m = choose|m: int| 0 <= m < c.len() && c[m] == p;
        if m < k {
            assert(c[m] <= c[k - 1]) by {
                if m < k - 1 {
                    assert(c[m] < c[k - 1]);
                }
            }
        } else {
            assert(c[k] <= c[m]) by {
                if k < m {
                    assert(c[k] < c[m]);
                }
            }
        }
    }
}

impl MentisDb {
    fn walk_keeps(&self, q: &ThoughtQuery, indexed: bool, p: usize) -> (r: bool)
        requires
            self.wf(),
            p < self.spec_thoughts().len(),
            indexed == uses_index(*q),
        ensures
            indexed ==> r == (post_index_match(*q, self.spec_thoughts()[p as int]) && registry_match(self.spec_agents(), *q, self.spec_thoughts()[p as int])),
            !indexed ==> r == (query_match(*q, self.spec_thoughts()[p as int]) && registry_match(self.spec_agents(), *q, self.spec_thoughts()[p as int])),
    {
        proof {
            self.lemma_fields();
        }
        let t = &self.thoughts[p];
        let m = if indexed {
            q.matches_post_index_filters(t)
        } else {
            q.matches(t)
        };
        m && query_matches_registry(&self.agent_registry, t, q)
    }

    /// The matches of a walk that examines every position, up to one more
    /// than a page holds.
    fn collect_traversal_matches_linear(
        &self,
        anchor_position: usize,
        direction: ThoughtTraversalDirection,
        include_anchor: bool,
        chunk_size: usize,
        query: &ThoughtQuery,
        Ghost(s): Ghost<int>,
        Ghost(e): Ghost<int>,
    ) -> (r: Vec<usize>)
        requires
            self.wf(),
            anchor_position < self.spec_thoughts().len(),
            !uses_index(*query),
        ensures
            r@ == first_at_most(
                walk_matches(self.spec_thoughts(), self.spec_agents(), *query, s, e, anchor_position as int, direction, include_anchor),
                chunk_size + 1,
            ),
    {
        proof {
            self.lemma_fields();
        }
        let ghost th = self.spec_thoughts();
        let ghost reg = self.spec_agents();
        let ghost pred = |p: int| walk_selects(th, reg, *query, s, e, p);
        let ghost m = walk_matches(th, reg, *query, s, e, anchor_position as int, direction, include_anchor);
        let n = self.thoughts.len();
        let mut out: Vec<usize> = Vec::new();
        match direction {
            ThoughtTraversalDirection::Forward => {
                let f = if include_anchor {
                    anchor_position
                } else {
                    anchor_position + 1
                };
                let mut cur = f;
                while cur < n && out.len() <= chunk_size
                    invariant
                        self.wf(),
                        th == self.spec_thoughts(),
                        reg == self.spec_agents(),
                        n == th.len(),
                        !uses_index(*query),
                        pred == (|p: int| walk_selects(th, reg, *query, s, e, p)),
                        f <= cur <= n,
                        out@ == pick(pred, f as int, cur as int),
                        out@.len() <= chunk_size + 1,
                    decreases n - cur,
                {
                    if self.walk_keeps(query, false, cur) {
                        out.push(cur);
                    }
                    cur = cur + 1;
                }
                proof {
                    lemma_pick_split(pred, f as int, cur as int, n as int);
                    assert(m == pick(pred, f as int, n as int));
                    if cur < n {
                        assert(out@.len() == chunk_size + 1);
                        assert(m.take(chunk_size + 1) =~= out@);
                    } else {
                        assert(pick(pred, cur as int, n as int) =~= Seq::<usize>::empty());
                        assert(m =~= out@);
                    }
                }
            },
            ThoughtTraversalDirection::Backward => {
                let b = if include_anchor {
                    anchor_position + 1
                } else {
                    anchor_position
                };
                let mut cur = b;
                assert(pick_down(pred, b as int, b as int) =~= Seq::<usize>::empty());
                while cur > 0 && out.len() <= chunk_size
                    invariant
                        self.wf(),
                        th == self.spec_thoughts(),
                        reg == self.spec_agents(),
                        n == th.len(),
                        !uses_index(*query),
                        pred == (|p: int| walk_selects(th, reg, *query, s, e, p)),
                        cur <= b <= n,
                        out@ == pick_down(pred, cur as int, b as int),
                        out@.len() <= chunk_size + 1,
                    decreases cur,
                {
                    let ghost o0 = out@;
                    let keep = self.walk_keeps(query, false, cur - 1);
                    if keep {
                        out.push(cur - 1);
                    }
                    proof {
                        lemma_pick_down_extend(pred, cur as int, b as int);
                        if keep {
                            assert(out@ =~= o0 + seq![(cur - 1) as usize]);
                        } else {
                            assert(out@ =~= o0 + Seq::<usize>::empty());
                        }
                    }
                    cur = cur - 1;
                }
                proof {
                    lemma_pick_down_split(pred, 0, cur as int, b as int);
                    assert(m == pick_down(pred, 0, b as int));
                    if cur > 0 {
                        assert(out@.len() == chunk_size + 1);
                        assert(m.take(chunk_size + 1) =~= out@);
                    } else {
                        assert(pick_down(pred, 0, 0) =~= Seq::<usize>::empty());
                        assert(m =~= out@);
                    }
                }
            },
        }
        out
    }

    /// The matches of a walk over the sorted candidate positions, up to one
    /// more than a page holds.
    fn collect_traversal_matches_from_candidates(
        &self,
        candidates: &[usize],
        anchor_position: usize,
        direction: ThoughtTraversalDirection,
        include_anchor: bool,
        chunk_size: usize,
        query: &ThoughtQuery,
        Ghost(s): Ghost<int>,
        Ghost(e): Ghost<int>,
    ) -> (r: Vec<usize>)
        requires
            self.wf(),
            anchor_position < self.spec_thoughts().len(),
            e <= self.spec_thoughts().len(),
            uses_index(*query),
            strictly_sorted(candidates@),
            forall|p: usize| #[trigger] candidates@.contains(p) <==> (s <= p < e && p < self.spec_thoughts().len()
                && index_match(*query, self.spec_agents(), self.spec_thoughts()[p as int])),
        ensures
            r@ == first_at_most(
                walk_matches(self.spec_thoughts(), self.spec_agents(), *query, s, e, anchor_position as int, direction, include_anchor),
                chunk_size + 1,
            ),
    {
        proof {
            self.lemma_fields();
        }
        let ghost th = self.spec_thoughts();
        let ghost reg = self.spec_agents();
        let ghost pred = |p: int| walk_selects(th, reg, *query, s, e, p);
        let ghost m = walk_matches(th, reg, *query, s, e, anchor_position as int, direction, include_anchor);
        let ghost c = candidates@;
        let n = self.thoughts.len();
        let cn = candidates.len();
        proof {
            assert forall|k: int| 0 <= k < cn implies #[trigger] c[k] < n by {
                assert(c.contains(c[k]));
            }
        }
        let mut out: Vec<usize> = Vec::new();
        match direction {
            ThoughtTraversalDirection::Forward => {
                let f = if include_anchor {
                    anchor_position
                } else {
                    anchor_position + 1
                };
                let i0 = sorted_lower_bound(candidates, f);
                let mut k = i0;
                proof {
                    let b0 = if i0 < cn { c[i0 as int] as int } else { n as int };
                    assert forall|p: int| f <= p < b0 implies !#[trigger] pred(p) by {
                        lemma_between(c, i0 as int, p as usize);
                    }
                    lemma_pick_skip(pred, f as int, f as int, b0);
                }
                while k < cn && out.len() <= chunk_size
                    invariant
                        self.wf(),
                        th == self.spec_thoughts(),
                        reg == self.spec_agents(),
                        n == th.len(),
                        uses_index(*query),
                        pred == (|p: int| walk_selects(th, reg, *query, s, e, p)),
                        cn == c.len(),
                        c == candidates@,
                        strictly_sorted(c),
                        forall|p: usize| #[trigger] c.contains(p) <==> (s <= p < e && p < th.len() && index_match(*query, reg, th[p as int])),
                        forall|j: int| 0 <= j < cn ==> #[trigger] c[j] < n,
                        i0 <= k <= cn,
                        i0 == cn || c[i0 as int] >= f,
                        f <= n,
                        out@ == pick(pred, f as int, if k < cn { c[k as int] as int } else { n as int }),
                        out@.len() <= chunk_size + 1,
                    decreases cn - k,
                {
                    let p = candidates[k];
                    proof {
                        assert(c.contains(p));
                        if k > i0 {
                            assert(c[i0 as int] < c[k as int]);
                        }
                    }
                    let ghost o0 = out@;
                    if self.walk_keeps(query, true, p) {
                        out.push(p);
                    }
                    proof {
                        let b1 = if k + 1 < cn { c[k + 1] as int } else { n as int };
                        assert(b1 >= p + 1) by {
                            if k + 1 < cn {
                                assert(c[k as int] < c[k + 1]);
                            }
                        }
                        assert forall|x: int| p + 1 <= x < b1 implies !#[trigger] pred(x) by {
                            lemma_between(c, k + 1, x as usize);
                        }
                        lemma_pick_skip(pred, f as int, p + 1, b1);
                    }
                    k = k + 1;
                }
                proof {
                    let bk = if k < cn { c[k as int] as int } else { n as int };
                    lemma_pick_split(pred, f as int, bk, n as int);
                    assert(m == pick(pred, f as int, n as int));
                    if k < cn {
                        assert(out@.len() == chunk_size + 1);
                        assert(m.take(chunk_size + 1) =~= out@);
                    } else {
                        assert(pick(pred, n as int, n as int) =~= Seq::<usize>::empty());
                        assert(m =~= out@);
                    }
                }
            },
            ThoughtTraversalDirection::Backward => {
                let b = if include_anchor {
                    anchor_position + 1
                } else {
                    anchor_position
                };
                let j0 = sorted_lower_bound(candidates, b);
                let mut k = j0;
                proof {
                    let low = if j0 == 0 { 0 } else { c[j0 - 1] + 1 };
                    assert forall|p: int| low <= p < b implies !#[trigger] pred(p) by {
                        lemma_between(c, j0 as int, p as usize);
                    }
                    assert(pick_down(pred, b as int, b as int) =~= Seq::<usize>::empty());
                    lemma_pick_down_skip(pred, low, b as int, b as int);
                }
                while k > 0 && out.len() <= chunk_size
                    invariant
                        self.wf(),
                        th == self.spec_thoughts(),
                        reg == self.spec_agents(),
                        n == th.len(),
                        uses_index(*query),
                        pred == (|p: int| walk_selects(th, reg, *query, s, e, p)),
                        cn == c.len(),
                        c == candidates@,
                        strictly_sorted(c),
                        forall|p: usize| #[trigger] c.contains(p) <==> (s <= p < e && p < th.len() && index_match(*query, reg, th[p as int])),
                        forall|j: int| 0 <= j < cn ==> #[trigger] c[j] < n,
                        k <= j0 <= cn,
                        j0 == 0 || c[j0 - 1] < b,
                        b <= n,
                        out@ == pick_down(pred, if k == 0 { 0 } else { c[k - 1] + 1 }, b as int),
                        out@.len() <= chunk_size + 1,
                    decreases k,
                {
                    let p = candidates[k - 1];
                    proof {
                        assert(c.contains(p));
                        if k < j0 {
                            assert(c[k - 1] < c[j0 - 1]);
                        }
                    }
                    let ghost o0 = out@;
                    let keep = self.walk_keeps(query, true, p);
                    if keep {
                        out.push(p);
                    }
                    proof {
                        let low1 = if k - 1 == 0 { 0 } else { c[k - 2] + 1 };
                        assert(low1 <= p) by {
                            if k - 1 > 0 {
                                assert(c[k - 2] < c[k - 1]);
                            }
                        }
                        assert(p < b);
                        lemma_pick_down_extend(pred, p + 1, b as int);
                        if keep {
                            assert(out@ =~= o0 + seq![p]);
                        } else {
                            assert(out@ =~= o0 + Seq::<usize>::empty());
                        }
                        assert forall|x: int| low1 <= x < p implies !#[trigger] pred(x) by {
                            lemma_between(c, k - 1, x as usize);
                        }
                        lemma_pick_down_skip(pred, low1, p as int, b as int);
                    }
                    k = k - 1;
                }
                proof {
                    let lk = if k == 0 { 0 } else { c[k - 1] + 1 };
                    lemma_pick_down_split(pred, 0, lk, b as int);
                    assert(m == pick_down(pred, 0, b as int));
                    if k > 0 {
                        assert(out@.len() == chunk_size + 1);
                        assert(m.take(chunk_size + 1) =~= out@);
                    } else {
                        assert(pick_down(pred, 0, 0) =~= Seq::<usize>::empty());
                        assert(m =~= out@);
                    }
                }
            },
        }
        out
    }
}

/// Whether a page shows the walk whose matches are `m`: the first
/// `chunk_size` of them, whether more follow, and cursors on its first and
/// last thought.
pub open spec fn page_shows(page: ThoughtTraversalPage, thoughts: Seq<Thought>, m: Seq<usize>, chunk_size: usize) -> bool {
    let shown = first_at_most(m, chunk_size as int);
    &&& page.thoughts@.len() == shown.len()
    &&& forall|i: int| 0 <= i < shown.len() ==> *(#[trigger] page.thoughts@[i]) == thoughts[shown[i] as int]
    &&& page.has_more == (m.len() > chunk_size)
    &&& shown.len() == 0 ==> page.next_cursor is None && page.previous_cursor is None
    &&& shown.len() > 0 ==> (page.next_cursor matches Some(c) && cursor_of(c, thoughts[shown.last() as int]))
    &&& shown.len() > 0 ==> (page.previous_cursor matches Some(c) && cursor_of(c, thoughts[shown[0] as int]))
}

/// With sorted instants the candidate range does not change what a walk keeps.
pub proof fn lemma_sorted_walk_exact(
    thoughts: Seq<Thought>,
    reg: AgentRegistry,
    q: ThoughtQuery,
    a: int,
    e: int,
    anchor: int,
    direction: ThoughtTraversalDirection,
    include_anchor: bool,
)
    requires
        timestamps_sorted(thoughts),
        since_point(q, thoughts, a),
        until_point(q, thoughts, e),
    ensures
        walk_matches(thoughts, reg, q, min_int(a, e), e, anchor, direction, include_anchor) == walk_matches(
            thoughts,
            reg,
            q,
            0,
            thoughts.len() as int,
            anchor,
            direction,
            include_anchor,
        ),
{
    let s = min_int(a, e);
    let p1 = |p: int| walk_selects(thoughts, reg, q, s, e, p);
    let p2 = |p: int| walk_selects(thoughts, reg, q, 0, thoughts.len() as int, p);
    assert forall|p: int| #[trigger] p1(p) == p2(p) by {
        if uses_index(q) && 0 <= p < thoughts.len() {
            if p < s {
                if let Some(x) = q.since {
                    assert(ts_le_or_eq(thoughts, p, a - 1));
                }
            }
            if p >= e {
                if let Some(u) = q.until {
                    assert(ts_le_or_eq(thoughts, e, p));
                }
            }
        }
    }
    assert(p1 =~= p2);
}

/// The instant at `i` is not later than the one at `j`, in a sorted chain.
pub open spec fn ts_le_or_eq(thoughts: Seq<Thought>, i: int, j: int) -> bool {
    i == j || crate::model::ts_le(thoughts[i].timestamp, thoughts[j].timestamp)
}

impl MentisDb {
    /// One chunk of a walk from an anchor. The walk visits the positions
    /// after (forwards) or before (backwards) the anchor, and the anchor
    /// itself when asked, keeping the thoughts the filter matches; its
    /// limit is ignored, and hidden thoughts and dreams are not left out.
    /// An anchor that designates no thought gives an empty page; a chunk
    /// size of zero is refused.
    pub fn traverse_thoughts(&self, request: &ThoughtTraversalRequest) -> (r: Result<ThoughtTraversalPage<'_>, ChainError>)
        requires
            self.wf(),
        ensures
            r is Err <==> request.chunk_size == 0,
            r matches Err(er) ==> er matches ChainError::InvalidInput(msg) && msg@ == "chunk_size must be greater than zero"@,
            r matches Ok(page) ==> (forall|p: int| !self.anchor_designates(request.anchor, p)) ==> {
                &&& page.anchor is None
                &&& page.thoughts@.len() == 0
                &&& !page.has_more
                &&& page.next_cursor is None
                &&& page.previous_cursor is None
            },
            r matches Ok(page) ==> forall|p: int| #[trigger] self.anchor_designates(request.anchor, p) ==> {
                &&& page.anchor matches Some(c) && cursor_of(c, self.spec_thoughts()[p])
                &&& page_shows(
                    page,
                    self.spec_thoughts(),
                    walk_matches(
                        self.spec_thoughts(),
                        self.spec_agents(),
                        request.filter,
                        min_int(since_index(request.filter, self.spec_thoughts()), until_index(request.filter, self.spec_thoughts())),
                        until_index(request.filter, self.spec_thoughts()),
                        p,
                        request.direction,
                        request.include_anchor,
                    ),
                    request.chunk_size,
                )
                &&& timestamps_sorted(self.spec_thoughts()) ==> page_shows(
                    page,
                    self.spec_thoughts(),
                    walk_matches(
                        self.spec_thoughts(),
                        self.spec_agents(),
                        request.filter,
                        0,
                        self.spec_thoughts().len() as int,
                        p,
                        request.direction,
                        request.include_anchor,
                    ),
                    request.chunk_size,
                )
            },
    {
        proof {
            self.lemma_fields();
        }
        if request.chunk_size == 0 {
            return Err(ChainError::InvalidInput(String::from_str("chunk_size must be greater than zero")));
        }
        let ghost th = self.spec_thoughts();
        let ghost reg = self.spec_agents();
        let anchor_position = match self.locate_thought_position(&request.anchor) {
            Some(p) => p,
            None => {
                return Ok(ThoughtTraversalPage {
                    anchor: None,
                    thoughts: Vec::new(),
                    has_more: false,
                    next_cursor: None,
                    previous_cursor: None,
                });
            },
        };
        let anchor = ThoughtTraversalCursor::from_thought(&self.thoughts[anchor_position]);
        let filter = &request.filter;
        let (start, end) = filter.candidate_position_bounds(self.thoughts.as_slice());
        let ghost a = since_index(*filter, th);
        proof {
            lemma_index_points(*filter, th);
        }
        let mut positions = match self.indexed_candidate_positions(filter) {
            Some(cands) => {
                let mut bounded: Vec<usize> = Vec::new();
                let mut i: usize = 0;
                while i < cands.len()
                    invariant
                        i <= cands@.len(),
                        strictly_sorted(cands@),
                        strictly_sorted(bounded@),
                        forall|j: int| 0 <= j < bounded@.len() ==> #[trigger] bounded@[j] < (if i < cands@.len() { cands@[i as int] } else { usize::MAX }) || i == cands@.len(),
                        forall|x: usize| #[trigger] bounded@.contains(x) <==> (start <= x < end && exists|j: int| 0 <= j < i && cands@[j] == x),
                    decreases cands@.len() - i,
                {
                    let c = cands[i];
                    let ghost b0 = bounded@;
                    if start <= c && c < end {
                        bounded.push(c);
                    }
                    proof {
                        assert forall|x: usize| #[trigger] bounded@.contains(x) <==> (start <= x < end && exists|j: int| 0 <= j < i + 1 && cands@[j] == x) by {
                            if bounded@.contains(x) {
                                let m = choose|m: int| 0 <= m < bounded@.len() && bounded@[m] == x;
                                if m < b0.len() {
                                    assert(b0[m] == x);
                                    assert(b0.contains(x));
                                }
                            }
                            if start <= x < end && exists|j: int| 0 <= j < i + 1 && cands@[j] == x {
                                let j = choose|j: int| 0 <= j < i + 1 && cands@[j] == x;
                                if j < i {
                                    assert(b0.contains(x));
                                    let m = choose|m: int| 0 <= m < b0.len() && b0[m] == x;
                                    assert(bounded@[m] == x);
                                } else {
                                    assert(bounded@[b0.len() as int] == x);
                                }
                            }
                        }
                        assert forall|j: int| 0 <= j < bounded@.len() implies #[trigger] bounded@[j] < (if i + 1 < cands@.len() { cands@[i + 1] } else { usize::MAX }) || i + 1 == cands@.len() by {
                            if i + 1 < cands@.len() {
                                assert(cands@[i as int] < cands@[i + 1]);
                                if j < b0.len() {
                                    assert(bounded@[j] == b0[j]);
                                }
                            }
                        }
                        assert forall|x: int, y: int| 0 <= x < y < bounded@.len() implies bounded@[x] < bounded@[y] by {
                            if y >= b0.len() {
                                assert(bounded@[x] == b0[x]);
                            } else {
                                assert(bounded@[x] == b0[x]);
                                assert(bounded@[y] == b0[y]);
                            }
                        }
                    }
                    i = i + 1;
                }
                proof {
                    assert forall|x: usize| #[trigger] bounded@.contains(x) <==> (start <= x < end && x < th.len() && index_match(*filter, reg, th[x as int])) by {
                        if exists|j: int| 0 <= j < cands@.len() && cands@[j] == x {
                            assert(cands@.contains(x));
                        }
                        if cands@.contains(x) {
                            let j = choose|j: int| 0 <= j < cands@.len() && cands@[j] == x;
                        }
                    }
                }
                self.collect_traversal_matches_from_candidates(
                    bounded.as_slice(),
                    anchor_position,
                    request.direction,
                    request.include_anchor,
                    request.chunk_size,
                    filter,
                    Ghost(start as int),
                    Ghost(end as int),
                )
            },
            None => self.collect_traversal_matches_linear(
                anchor_position,
                request.direction,
                request.include_anchor,
                request.chunk_size,
                filter,
                Ghost(start as int),
                Ghost(end as int),
            ),
        };
        let ghost m = walk_matches(th, reg, *filter, start as int, end as int, anchor_position as int, request.direction, request.include_anchor);
        let total = self.thoughts.len();
        proof {
            assert(th.len() == total);
            assert(start as int == min_int(a, end as int));
            assert(positions@ == first_at_most(m, request.chunk_size + 1));
            assert forall|j: int| 0 <= j < positions@.len() implies #[trigger] positions@[j] < th.len() by {
                lemma_walk_bounds(th, reg, *filter, start as int, end as int, anchor_position as int, request.direction, request.include_anchor);
                assert(positions@[j] == m[j]);
            }
        }
        let has_more = positions.len() > request.chunk_size;
        if has_more {
            positions.pop();
        }
        proof {
            if has_more {
                assert(positions@ =~= m.take(request.chunk_size as int));
            } else {
                assert(positions@ == m);
            }
            assert(positions@ == first_at_most(m, request.chunk_size as int));
        }
        let mut thoughts: Vec<&Thought> = Vec::new();
        let mut i: usize = 0;
        while i < positions.len()
            invariant
                self.thoughts@ == th,
                i <= positions@.len(),
                forall|j: int| 0 <= j < positions@.len() ==> #[trigger] positions@[j] < th.len(),
                thoughts@.len() == i,
                forall|j: int| 0 <= j < i ==> *(#[trigger] thoughts@[j]) == th[positions@[j] as int],
            decreases positions@.len() - i,
        {
            thoughts.push(&self.thoughts[positions[i]]);
            i = i + 1;
        }
        let (next_cursor, previous_cursor) = if positions.len() > 0 {
            let last = positions[positions.len() - 1];
            let first = positions[0];
            (
                Some(ThoughtTraversalCursor::from_thought(&self.thoughts[last])),
                Some(ThoughtTraversalCursor::from_thought(&self.thoughts[first])),
            )
        } else {
            (None, None)
        };
        let page = ThoughtTraversalPage { anchor: Some(anchor), thoughts, has_more, next_cursor, previous_cursor };
        proof {
            assert(page_shows(page, th, m, request.chunk_size));
            assert forall|p: int| #[trigger] self.anchor_designates(request.anchor, p) implies p == anchor_position by {
                lemma_anchor_unique(self, request.anchor, p, anchor_position as int);
            }
            assert(since_point(*filter, th, a) && until_point(*filter, th, end as int));
            if timestamps_sorted(th) {
                lemma_sorted_walk_exact(th, reg, *filter, a, end as int, anchor_position as int, request.direction, request.include_anchor);
            }
        }
        Ok(page)
    }
}

/// The matches of a walk lie within the chain.
proof fn lemma_walk_bounds(
    thoughts: Seq<Thought>,
    reg: AgentRegistry,
    q: ThoughtQuery,
    s: int,
    e: int,
    anchor: int,
    direction: ThoughtTraversalDirection,
    include_anchor: bool,
)
    requires
        0 <= anchor < thoughts.len(),
        thoughts.len() <= usize::MAX,
    ensures
        forall|j: int| 0 <= j < walk_matches(thoughts, reg, q, s, e, anchor, direction, include_anchor).len()
            ==> #[trigger] walk_matches(thoughts, reg, q, s, e, anchor, direction, include_anchor)[j] < thoughts.len(),
{
    let pred = |p: int| walk_selects(thoughts, reg, q, s, e, p);
    match direction {
        ThoughtTraversalDirection::Forward => {
            crate::positions::lemma_pick_bounds(pred, if include_anchor { anchor } else { anchor + 1 }, thoughts.len() as int);
        },
        ThoughtTraversalDirection::Backward => {
            lemma_pick_down_bounds(pred, 0, if include_anchor { anchor + 1 } else { anchor });
        },
    }
}

proof fn lemma_pick_down_bounds(pred: spec_fn(int) -> bool, lo: int, hi: int)
    requires
        0 <= lo,
    ensures
        forall|j: int| 0 <= j < pick_down(pred, lo, hi).len() ==> #[trigger] pick_down(pred, lo, hi)[j] < hi,
    decreases hi - lo,
{
    if hi > lo {
        lemma_pick_down_bounds(pred, lo, hi - 1);
        let rest = pick_down(pred, lo, hi - 1);
        let cur = pick_down(pred, lo, hi);
        assert forall|j: int| 0 <= j < cur.len() implies #[trigger] cur[j] < hi by {
            if pred(hi - 1) {
                if j > 0 {
                    assert(cur[j] == rest[j - 1]);
                }
            } else {
                assert(cur[j] == rest[j]);
            }
        }
    }
}

/// An anchor designates at most one position.
proof fn lemma_anchor_unique(db: &MentisDb, anchor: ThoughtTraversalAnchor, p: int, q: int)
    requires
        db.anchor_designates(anchor, p),
        db.anchor_designates(anchor, q),
    ensures
        p == q,
{
    match anchor {
        ThoughtTraversalAnchor::Id(id) => {
            if p < q {
                assert(db.spec_thoughts()[q].id != id);
            } else if q < p {
                assert(db.spec_thoughts()[p].id != id);
            }
        },
        ThoughtTraversalAnchor::Hash(h) => {
            if p < q {
                assert(db.spec_thoughts()[q].hash@ != h@);
            } else if q < p {
                assert(db.spec_thoughts()[p].hash@ != h@);
            }
        },
        _ => {},
    }
}

/// The positions a downward pick keeps lie in its range, strictly
/// decreasing, and each satisfies the predicate.
proof fn lemma_pick_down_order(pred: spec_fn(int) -> bool, lo: int, hi: int)
    requires
        0 <= lo,
        hi <= usize::MAX,
    ensures
        forall|j: int| 0 <= j < pick_down(pred, lo, hi).len() ==> lo <= #[trigger] pick_down(pred, lo, hi)[j] < hi,
        forall|j: int| 0 <= j < pick_down(pred, lo, hi).len() ==> pred(#[trigger] pick_down(pred, lo, hi)[j] as int),
        forall|i: int, j: int| 0 <= i < j < pick_down(pred, lo, hi).len() ==> pick_down(pred, lo, hi)[i] > pick_down(pred, lo, hi)[j],
    decreases hi - lo,
{
    if hi > lo {
        lemma_pick_down_order(pred, lo, hi - 1);
        let rest = pick_down(pred, lo, hi - 1);
        let cur = pick_down(pred, lo, hi);
        if pred(hi - 1) {
            assert forall|j: int| 0 < j < cur.len() implies #[trigger] cur[j] == rest[j - 1] by {}
            assert(cur[0] == hi - 1);
        } else {
            assert forall|j: int| 0 <= j < cur.len() implies #[trigger] cur[j] == rest[j] by {}
        }
    }
}

/// A page of a traversal lists at most a chunk of thoughts, each one the
/// walk keeps: walking forwards, in chain order and after the anchor;
/// walking backwards, in reverse chain order and before it; the anchor
/// itself only when the request includes it.
pub proof fn lemma_page_order<'a>(
    db: &MentisDb,
    request: ThoughtTraversalRequest,
    page: ThoughtTraversalPage<'a>,
    s: int,
    e: int,
    p: int,
)
    requires
        db.wf(),
        db.spec_thoughts().len() <= usize::MAX,
        db.anchor_designates(request.anchor, p),
        page_shows(
            page,
            db.spec_thoughts(),
            walk_matches(db.spec_thoughts(), db.spec_agents(), request.filter, s, e, p, request.direction, request.include_anchor),
            request.chunk_size,
        ),
    ensures
        page.thoughts@.len() <= request.chunk_size,
        forall|i: int| 0 <= i < page.thoughts@.len() ==> walk_selects(
            db.spec_thoughts(), db.spec_agents(), request.filter, s, e, (#[trigger] page.thoughts@[i]).index as int),
        request.direction is Forward ==> forall|i: int, j: int|
            0 <= i < j < page.thoughts@.len() ==> (#[trigger] page.thoughts@[i]).index < (#[trigger] page.thoughts@[j]).index,
        request.direction is Forward ==> forall|i: int| 0 <= i < page.thoughts@.len() ==> if request.include_anchor {
            p <= (#[trigger] page.thoughts@[i]).index
        } else {
            p < page.thoughts@[i].index
        },
        request.direction is Backward ==> forall|i: int, j: int|
            0 <= i < j < page.thoughts@.len() ==> (#[trigger] page.thoughts@[i]).index > (#[trigger] page.thoughts@[j]).index,
        request.direction is Backward ==> forall|i: int| 0 <= i < page.thoughts@.len() ==> if request.include_anchor {
            (#[trigger] page.thoughts@[i]).index <= p
        } else {
            page.thoughts@[i].index < p
        },
{
    db.lemma_wf();
    db.lemma_fields();
    let th = db.spec_thoughts();
    let m = walk_matches(th, db.spec_agents(), request.filter, s, e, p, request.direction, request.include_anchor);
    let shown = first_at_most(m, request.chunk_size as int);
    let pred = |x: int| walk_selects(th, db.spec_agents(), request.filter, s, e, x);
    match request.direction {
        ThoughtTraversalDirection::Forward => {
            let lo = if request.include_anchor { p } else { p + 1 };
            crate::positions::lemma_pick_bounds(pred, lo, th.len() as int);
            crate::positions::lemma_pick_members(pred, lo, th.len() as int);
        },
        ThoughtTraversalDirection::Backward => {
            lemma_pick_down_order(pred, 0, if request.include_anchor { p + 1 } else { p });
        },
    }
    assert forall|i: int| 0 <= i < shown.len() implies #[trigger] shown[i] == m[i] && m[i] < th.len()
        && (*page.thoughts@[i]).index == m[i] by {
        assert(th[m[i] as int].index == m[i]);
    }
}

} // verus!
