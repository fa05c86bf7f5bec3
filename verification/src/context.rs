//! The context of a thought: every thought reachable from it through its
//! in-chain relations and its references, and the prompts rendered from it.
use vstd::prelude::*;
use crate::chain::MentisDb;
use crate::markdown::{agent_label, agent_label_for, join, join_strings, ScoreText};
use crate::model::{views, Thought};
use crate::positions::{lemma_pick_bounds, pick};
use crate::registry::AgentRegistry;
use crate::text::{concat_str, contains_sub, decimal, lemma_contains_extend, lemma_contains_tail, trim, trim_str, u64_to_decimal};

verus! {

/// Whether `q` is the position the chain's id map gives for `id`: the last
/// thought carrying that id.
pub open spec fn holds_id(ts: Seq<Thought>, q: int, id: u128) -> bool {
    &&& 0 <= q < ts.len()
    &&& ts[q].id == id
    &&& forall|j: int| q < j < ts.len() ==> (#[trigger] ts[j]).id != id
}

/// One step of context: from the thought at `p` to the thought that one of
/// its in-chain relations targets, or to the thought with the id of the
/// thought one of its in-range references names.
pub open spec fn context_step(ts: Seq<Thought>, p: int, q: int) -> bool {
    &&& 0 <= p < ts.len()
    &&& {
        ||| exists|k: int|
            0 <= k < ts[p].relations@.len() && (#[trigger] ts[p].relations@[k]).chain_key is None && holds_id(
                ts,
                q,
                ts[p].relations@[k].target_id,
            )
        ||| exists|k: int|
            0 <= k < ts[p].refs@.len() && (#[trigger] ts[p].refs@[k]) < ts.len() && holds_id(
                ts,
                q,
                ts[ts[p].refs@[k] as int].id,
            )
    }
}

/// A walk of context steps that starts at the thought holding `target_id`.
pub open spec fn context_path(ts: Seq<Thought>, target_id: u128, path: Seq<int>) -> bool {
    &&& path.len() > 0
    &&& holds_id(ts, path[0], target_id)
    &&& forall|i: int| 0 <= i < path.len() - 1 ==> #[trigger] context_step(ts, path[i], path[i + 1])
}

/// Whether the thought at `q` belongs to the context of `target_id`.
pub open spec fn in_context(ts: Seq<Thought>, target_id: u128, q: int) -> bool {
    exists|path: Seq<int>| context_path(ts, target_id, path) && path.last() == q
}

/// The number of set flags.
pub open spec fn count_set(s: Seq<bool>) -> nat
    decreases s.len(),
{
    if s.len() == 0 {
        0
    } else {
        count_set(s.drop_last()) + if s.last() {
            1nat
        } else {
            0nat
        }
    }
}

proof fn lemma_count_set_bound(s: Seq<bool>)
    ensures
        count_set(s) <= s.len(),
    decreases s.len(),
{
    if s.len() > 0 {
        lemma_count_set_bound(s.drop_last());
    }
}

proof fn lemma_count_set_update(s: Seq<bool>, i: int)
    requires
        0 <= i < s.len(),
        !s[i],
    ensures
        count_set(s.update(i, true)) == count_set(s) + 1,
    decreases s.len(),
{
    let t = s.update(i, true);
    if i == s.len() - 1 {
        assert(t.drop_last() =~= s.drop_last());
    } else {
        lemma_count_set_update(s.drop_last(), i);
        assert(t.drop_last() =~= s.drop_last().update(i, true));
    }
}

proof fn lemma_holds_id_unique(ts: Seq<Thought>, a: int, b: int, id: u128)
    requires
        holds_id(ts, a, id),
        holds_id(ts, b, id),
    ensures
        a == b,
{
    if a < b {
        assert(ts[b].id != id);
    } else if b < a {
        assert(ts[a].id != id);
    }
}

/// The context is closed under context steps: a thought one step away
/// from a thought of the context belongs to it.
pub proof fn lemma_context_extend(ts: Seq<Thought>, target_id: u128, p: int, q: int)
    requires
        in_context(ts, target_id, p),
        context_step(ts, p, q),
    ensures
        in_context(ts, target_id, q),
{
    let path = choose|path: Seq<int>| context_path(ts, target_id, path) && path.last() == p;
    let next = path.push(q);
    assert forall|i: int| 0 <= i < next.len() - 1 implies #[trigger] context_step(ts, next[i], next[i + 1]) by {
        if i < path.len() - 1 {
            assert(next[i] == path[i] && next[i + 1] == path[i + 1]);
        } else {
            assert(next[i] == p && next[i + 1] == q);
        }
    }
    assert(context_path(ts, target_id, next) && next.last() == q);
}

/// The thought holding the target id belongs to its own context.
pub proof fn lemma_context_start(ts: Seq<Thought>, target_id: u128, start: int)
    requires
        holds_id(ts, start, target_id),
    ensures
        in_context(ts, target_id, start),
{
    let path = seq![start];
    assert(context_path(ts, target_id, path) && path.last() == start);
}

/// A set of positions that holds the start and is closed under context
/// steps holds the end of every context path.
proof fn lemma_closed_holds_path(ts: Seq<Thought>, target_id: u128, seen: Seq<bool>, path: Seq<int>)
    requires
        seen.len() == ts.len(),
        context_path(ts, target_id, path),
        seen[path[0]],
        forall|p: int, q: int| 0 <= p < ts.len() && seen[p] && #[trigger] context_step(ts, p, q) ==> 0 <= q < ts.len() && seen[q],
    ensures
        0 <= path.last() < ts.len(),
        seen[path.last()],
    decreases path.len(),
{
    if path.len() > 1 {
        let prefix = path.drop_last();
        assert forall|i: int| 0 <= i < prefix.len() - 1 implies #[trigger] context_step(ts, prefix[i], prefix[i + 1]) by {
            assert(context_step(ts, path[i], path[i + 1]));
        }
        lemma_closed_holds_path(ts, target_id, seen, prefix);
        let i = path.len() - 2;
        assert(context_step(ts, path[i], path[i + 1]));
    }
}

proof fn lemma_push_contains(s: Seq<usize>, y: usize)
    ensures
        forall|x: usize| #[trigger] s.push(y).contains(x) <==> (s.contains(x) || x == y),
{
    assert forall|x: usize| #[trigger] s.push(y).contains(x) <==> (s.contains(x) || x == y) by {
        if s.contains(x) {
            let i = choose|i: int| 0 <= i < s.len() && s[i] == x;
            assert(s.push(y)[i] == x);
        }
        if x == y {
            assert(s.push(y)[s.len() as int] == x);
        }
        if s.push(y).contains(x) {
            let i = choose|i: int| 0 <= i < s.push(y).len() && s.push(y)[i] == x;
            if i < s.len() {
                assert(s[i] == x);
            }
        }
    }
}

proof fn lemma_pop_contains(s: Seq<usize>)
    requires
        s.len() > 0,
    ensures
        forall|x: usize| #[trigger] s.contains(x) ==> (s.drop_last().contains(x) || x == s.last()),
{
    assert forall|x: usize| #[trigger] s.contains(x) implies (s.drop_last().contains(x) || x == s.last()) by {
        let i = choose|i: int| 0 <= i < s.len() && s[i] == x;
        if i < s.len() - 1 {
            assert(s.drop_last()[i] == x);
        }
    }
}

impl MentisDb {
    /// Pushes the position of the thought holding `id`, if it is not seen;
    /// the position, when there is one, is then seen or on the stack.
    fn push_unseen(&self, id: u128, seen: &Vec<bool>, stack: &mut Vec<usize>)
        requires
            seen@.len() == self.spec_thoughts().len(),
        ensures
            forall|x: usize| old(stack)@.contains(x) ==> #[trigger] final(stack)@.contains(x),
            forall|x: usize| #[trigger] final(stack)@.contains(x) ==> old(stack)@.contains(x) || holds_id(self.spec_thoughts(), x as int, id),
            forall|q: int| #[trigger] holds_id(self.spec_thoughts(), q, id) ==> seen@[q] || final(stack)@.contains(q as usize),
    {
        match self.position_of_id(id) {
            Some(q) => {
                proof {
                    assert forall|q2: int| #[trigger] holds_id(self.spec_thoughts(), q2, id) implies q2 == q by {
                        lemma_holds_id_unique(self.spec_thoughts(), q2, q as int, id);
                    }
                }
                if !seen[q] {
                    proof {
                        lemma_push_contains(stack@, q);
                    }
                    stack.push(q);
                }
            },
            None => {},
        }
    }

    /// The positions of the context of `target_id`, in increasing order.
    pub fn resolve_context_positions(&self, target_id: u128) -> (r: Vec<usize>)
        ensures
            r@ == pick(|q: int| in_context(self.spec_thoughts(), target_id, q), 0, self.spec_thoughts().len() as int),
    {
        let ts = self.thoughts();
        let ghost th = self.spec_thoughts();
        let ghost pred = |q: int| in_context(th, target_id, q);
        let n = ts.len();
        let mut seen: Vec<bool> = Vec::new();
        let mut i: usize = 0;
        while i < n
            invariant
                n == th.len(),
                i <= n,
                seen@.len() == i,
                forall|j: int| 0 <= j < i ==> !seen@[j],
            decreases n - i,
        {
            seen.push(false);
            i = i + 1;
        }
        proof {
            assert(count_set(seen@) == 0) by {
                assert forall|m: int| 0 <= m <= seen@.len() implies count_set(#[trigger] seen@.take(m)) == 0 by {
                    lemma_count_prefix_unset(seen@, m);
                }
                assert(seen@.take(seen@.len() as int) =~= seen@);
            }
        }
        let start = match self.position_of_id(target_id) {
            Some(p) => p,
            None => {
                proof {
                    assert forall|q: int| 0 <= q < n implies !#[trigger] pred(q) by {
                        if in_context(th, target_id, q) {
                            let path = choose|path: Seq<int>| context_path(th, target_id, path) && path.last() == q;
                            assert(th[path[0]].id == target_id);
                        }
                    }
                    crate::positions::lemma_pick_skip(pred, 0, 0, n as int);
                }
                return Vec::new();
            },
        };
        proof {
            lemma_context_start(th, target_id, start as int);
        }
        let mut stack: Vec<usize> = Vec::new();
        stack.push(start);
        assert(stack@[0] == start);
        let mut marked: usize = 0;
        while stack.len() > 0
            invariant
                ts@ == th,
                th == self.spec_thoughts(),
                n == th.len(),
                seen@.len() == n,
                marked as nat == count_set(seen@),
                holds_id(th, start as int, target_id),
                seen@[start as int] || stack@.contains(start),
                forall|m: int| 0 <= m < stack@.len() ==> (#[trigger] stack@[m]) < n && in_context(th, target_id, stack@[m] as int),
                forall|q: int| 0 <= q < n && #[trigger] seen@[q] ==> in_context(th, target_id, q),
                forall|p: int, q: int|
                    0 <= p < n && seen@[p] && #[trigger] context_step(th, p, q) ==> seen@[q] || stack@.contains(q as usize),
            decreases n - marked, stack@.len(),
        {
            proof {
                lemma_count_set_bound(seen@);
                lemma_pop_contains(stack@);
            }
            let ghost before = stack@;
            let p = stack.pop().unwrap();
            assert(stack@ == before.drop_last() && p == before.last());
            if seen[p] {
                proof {
                    assert forall|p2: int, q: int|
                        0 <= p2 < n && seen@[p2] && #[trigger] context_step(th, p2, q) implies seen@[q] || stack@.contains(q as usize) by {
                        if !seen@[q] {
                            assert(before.contains(q as usize));
                        }
                    }
                    assert forall|m: int| 0 <= m < stack@.len() implies (#[trigger] stack@[m]) < n && in_context(th, target_id, stack@[m] as int) by {
                        assert(stack@[m] == before[m]);
                    }
                }
                continue;
            }
            proof {
                assert(before[before.len() - 1] == p);
            }
            let t = &ts[p];
            let mut k: usize = 0;
            while k < t.relations.len()
                invariant
                    ts@ == th,
                    th == self.spec_thoughts(),
                    n == th.len(),
                    seen@.len() == n,
                    p < n,
                    !seen@[p as int],
                    *t == th[p as int],
                    in_context(th, target_id, p as int),
                    k <= t.relations@.len(),
                    seen@[start as int] || stack@.contains(start) || start == p,
                    forall|m: int| 0 <= m < stack@.len() ==> (#[trigger] stack@[m]) < n && in_context(th, target_id, stack@[m] as int),
                    forall|q: int| 0 <= q < n && #[trigger] seen@[q] ==> in_context(th, target_id, q),
                    forall|p2: int, q: int|
                        0 <= p2 < n && seen@[p2] && #[trigger] context_step(th, p2, q) ==> seen@[q] || stack@.contains(q as usize) || q == p,
                    forall|j: int, q: int|
                        0 <= j < k && t.relations@[j].chain_key is None && #[trigger] holds_id(th, q, t.relations@[j].target_id)
                            ==> seen@[q] || stack@.contains(q as usize),
                decreases t.relations@.len() - k,
            {
                if t.relations[k].chain_key.is_none() {
                    let ghost s0 = stack@;
                    let id = t.relations[k].target_id;
                    self.push_unseen(id, &seen, &mut stack);
                    proof {
                        assert forall|m: int| 0 <= m < stack@.len() implies (#[trigger] stack@[m]) < n && in_context(th, target_id, stack@[m] as int) by {
                            let x = stack@[m];
                            assert(stack@.contains(x));
                            if !s0.contains(x) {
                                assert(context_step(th, p as int, x as int));
                                lemma_context_extend(th, target_id, p as int, x as int);
                            } else {
                                let m0 = choose|m0: int| 0 <= m0 < s0.len() && s0[m0] == x;
                                assert(s0[m0] < n);
                            }
                        }
                    }
                }
                k = k + 1;
            }
            let mut k: usize = 0;
            while k < t.refs.len()
                invariant
                    ts@ == th,
                    th == self.spec_thoughts(),
                    n == th.len(),
                    seen@.len() == n,
                    p < n,
                    !seen@[p as int],
                    *t == th[p as int],
                    in_context(th, target_id, p as int),
                    k <= t.refs@.len(),
                    seen@[start as int] || stack@.contains(start) || start == p,
                    forall|m: int| 0 <= m < stack@.len() ==> (#[trigger] stack@[m]) < n && in_context(th, target_id, stack@[m] as int),
                    forall|q: int| 0 <= q < n && #[trigger] seen@[q] ==> in_context(th, target_id, q),
                    forall|p2: int, q: int|
                        0 <= p2 < n && seen@[p2] && #[trigger] context_step(th, p2, q) ==> seen@[q] || stack@.contains(q as usize) || q == p,
                    forall|j: int, q: int|
                        0 <= j < t.relations@.len() && t.relations@[j].chain_key is None && #[trigger] holds_id(th, q, t.relations@[j].target_id)
                            ==> seen@[q] || stack@.contains(q as usize),
                    forall|j: int, q: int|
                        0 <= j < k && t.refs@[j] < n && #[trigger] holds_id(th, q, th[t.refs@[j] as int].id)
                            ==> seen@[q] || stack@.contains(q as usize),
                decreases t.refs@.len() - k,
            {
                let r = t.refs[k];
                if r < n as u64 {
                    let ghost s0 = stack@;
                    let id = ts[r as usize].id;
                    self.push_unseen(id, &seen, &mut stack);
                    proof {
                        assert forall|m: int| 0 <= m < stack@.len() implies (#[trigger] stack@[m]) < n && in_context(th, target_id, stack@[m] as int) by {
                            let x = stack@[m];
                            assert(stack@.contains(x));
                            if !s0.contains(x) {
                                assert(context_step(th, p as int, x as int));
                                lemma_context_extend(th, target_id, p as int, x as int);
                            } else {
                                let m0 = choose|m0: int| 0 <= m0 < s0.len() && s0[m0] == x;
                                assert(s0[m0] < n);
                            }
                        }
                    }
                }
                k = k + 1;
            }
            proof {
                lemma_count_set_update(seen@, p as int);
                lemma_count_set_bound(seen@.update(p as int, true));
            }
            seen.set(p, true);
            marked = marked + 1;
            proof {
                assert forall|p2: int, q: int|
                    0 <= p2 < n && seen@[p2] && #[trigger] context_step(th, p2, q) implies seen@[q] || stack@.contains(q as usize) by {
                    if p2 == p {
                        let ghost tp = th[p as int];
                        if exists|j: int| 0 <= j < tp.relations@.len() && (#[trigger] tp.relations@[j]).chain_key is None && holds_id(th, q, tp.relations@[j].target_id) {
                            let j = choose|j: int| 0 <= j < tp.relations@.len() && (#[trigger] tp.relations@[j]).chain_key is None && holds_id(th, q, tp.relations@[j].target_id);
                            assert(t.relations@[j] == tp.relations@[j]);
                        } else {
                            let j = choose|j: int| 0 <= j < tp.refs@.len() && (#[trigger] tp.refs@[j]) < th.len() && holds_id(th, q, th[tp.refs@[j] as int].id);
                            assert(t.refs@[j] == tp.refs@[j]);
                        }
                    }
                }
            }
        }
        proof {
            assert(stack@.len() == 0);
            assert(seen@[start as int]);
            assert forall|q: int| 0 <= q < n implies (#[trigger] seen@[q] <==> pred(q)) by {
                if in_context(th, target_id, q) {
                    let path = choose|path: Seq<int>| context_path(th, target_id, path) && path.last() == q;
                    lemma_holds_id_unique(th, path[0], start as int, target_id);
                    lemma_closed_holds_path(th, target_id, seen@, path);
                }
            }
        }
        let mut r: Vec<usize> = Vec::new();
        let mut i: usize = 0;
        while i < n
            invariant
                n == th.len(),
                seen@.len() == n,
                i <= n,
                forall|q: int| 0 <= q < n ==> (#[trigger] seen@[q] <==> pred(q)),
                r@ == pick(pred, 0, i as int),
            decreases n - i,
        {
            if seen[i] {
                r.push(i);
            }
            i = i + 1;
        }
        r
    }
}

proof fn lemma_count_prefix_unset(s: Seq<bool>, m: int)
    requires
        0 <= m <= s.len(),
        forall|j: int| 0 <= j < s.len() ==> !s[j],
    ensures
        count_set(s.take(m)) == 0,
    decreases m,
{
    if m > 0 {
        lemma_count_prefix_unset(s, m - 1);
        assert(s.take(m).drop_last() =~= s.take(m - 1));
    }
}


/// The positions of the context of `target_id`, in chain order.
pub open spec fn context_positions(ts: Seq<Thought>, target_id: u128) -> Seq<usize> {
    pick(|q: int| in_context(ts, target_id, q), 0, ts.len() as int)
}

/// A list of references as `{:?}` prints it.
pub open spec fn ref_list(refs: Seq<u64>) -> Seq<char> {
    "["@ + join(refs.map_values(|r: u64| decimal(r as nat)), ", "@) + "]"@
}

/// The lines of one thought in a restored-context prompt.
pub open spec fn bootstrap_entry(reg: AgentRegistry, t: Thought, s: ScoreText) -> Seq<char> {
    "[#"@ + decimal(t.index as nat) + "] "@ + t.thought_type.name() + " / "@ + t.role.name() + " ("@
        + agent_label(reg, t) + ")\n"@ + t.content@ + "\n"@ + (if t.confidence is Some {
        "  confidence: "@ + s.confidence@ + "\n"@
    } else {
        Seq::empty()
    }) + "  importance: "@ + s.importance@ + "\n"@ + (if t.tags@.len() > 0 {
        "  tags: "@ + join(views(t.tags@), ", "@) + "\n"@
    } else {
        Seq::empty()
    }) + (if t.concepts@.len() > 0 {
        "  concepts: "@ + join(views(t.concepts@), ", "@) + "\n"@
    } else {
        Seq::empty()
    }) + (if t.refs@.len() > 0 {
        "  refs: "@ + ref_list(t.refs@) + "\n"@
    } else {
        Seq::empty()
    })
}

/// Every restored-context entry shows its thought's own scores: a line
/// `  confidence: ` with the confidence text when the thought has a
/// confidence, and a line `  importance: ` with the importance text.
pub proof fn lemma_entry_shows_own_scores(reg: AgentRegistry, t: Thought, s: ScoreText)
    ensures
        t.confidence is Some ==> contains_sub(bootstrap_entry(reg, t, s), "  confidence: "@ + s.confidence@ + "\n"@),
        contains_sub(bootstrap_entry(reg, t, s), "  importance: "@ + s.importance@ + "\n"@),
{
    let h = "[#"@ + decimal(t.index as nat) + "] "@ + t.thought_type.name() + " / "@ + t.role.name() + " ("@
        + agent_label(reg, t) + ")\n"@ + t.content@ + "\n"@;
    let conf_line = "  confidence: "@ + s.confidence@ + "\n"@;
    let conf = if t.confidence is Some { conf_line } else { Seq::<char>::empty() };
    let x = h + conf;
    let imp = "  importance: "@ + s.importance@ + "\n"@;
    let tg = if t.tags@.len() > 0 {
        "  tags: "@ + join(views(t.tags@), ", "@) + "\n"@
    } else {
        Seq::empty()
    };
    let cp = if t.concepts@.len() > 0 {
        "  concepts: "@ + join(views(t.concepts@), ", "@) + "\n"@
    } else {
        Seq::empty()
    };
    let rf = if t.refs@.len() > 0 {
        "  refs: "@ + ref_list(t.refs@) + "\n"@
    } else {
        Seq::empty()
    };
    let p3 = x + "  importance: "@ + s.importance@ + "\n"@;
    assert(bootstrap_entry(reg, t, s) == p3 + tg + cp + rf);
    assert(p3 =~= x + imp);
    lemma_contains_tail(x, imp);
    lemma_contains_extend(p3, tg, imp);
    lemma_contains_extend(p3 + tg, cp, imp);
    lemma_contains_extend(p3 + tg + cp, rf, imp);
    if t.confidence is Some {
        lemma_contains_tail(h, conf_line);
        lemma_contains_extend(x, "  importance: "@, conf_line);
        lemma_contains_extend(x + "  importance: "@, s.importance@, conf_line);
        lemma_contains_extend(x + "  importance: "@ + s.importance@, "\n"@, conf_line);
        lemma_contains_extend(p3, tg, conf_line);
        lemma_contains_extend(p3 + tg, cp, conf_line);
        lemma_contains_extend(p3 + tg + cp, rf, conf_line);
    }
}

/// The entries of the thoughts at `ps`, in that order.
pub open spec fn bootstrap_entries(reg: AgentRegistry, ts: Seq<Thought>, scores: Seq<ScoreText>, ps: Seq<usize>) -> Seq<char>
    decreases ps.len(),
{
    if ps.len() == 0 {
        Seq::empty()
    } else {
        bootstrap_entries(reg, ts, scores, ps.drop_last()) + bootstrap_entry(reg, ts[ps.last() as int], scores[ps.last() as int])
    }
}

/// A restored-context prompt of the thoughts at `ps`; empty when there are none.
pub open spec fn bootstrap_prompt(reg: AgentRegistry, ts: Seq<Thought>, scores: Seq<ScoreText>, ps: Seq<usize>) -> Seq<char> {
    if ps.len() == 0 {
        Seq::empty()
    } else {
        "=== RESTORED CONTEXT (from MentisDb) ===\n\n"@ + bootstrap_entries(reg, ts, scores, ps)
            + "\n=== END RESTORED CONTEXT ===\n"@
    }
}

/// The line of one thought in a catch-up prompt.
pub open spec fn catchup_entry(reg: AgentRegistry, t: Thought) -> Seq<char> {
    "[#"@ + decimal(t.index as nat) + "] "@ + t.thought_type.name() + " / "@ + t.role.name() + " ("@
        + agent_label(reg, t) + ") "@ + t.content@ + "\n"@
}

/// The lines of the given thoughts, in order.
pub open spec fn catchup_entries(reg: AgentRegistry, ts: Seq<Thought>) -> Seq<char>
    decreases ts.len(),
{
    if ts.len() == 0 {
        Seq::empty()
    } else {
        catchup_entries(reg, ts.drop_last()) + catchup_entry(reg, ts.last())
    }
}

/// A catch-up prompt of the given thoughts; empty when there are none.
pub open spec fn catchup_prompt(reg: AgentRegistry, ts: Seq<Thought>) -> Seq<char> {
    if ts.len() == 0 {
        Seq::empty()
    } else {
        "=== RECENT CONTEXT ===\n\n"@ + catchup_entries(reg, ts) + "\n=== END RECENT CONTEXT ===\n"@
    }
}

/// Renders a list of references as `{:?}` prints it.
fn render_refs(refs: &Vec<u64>) -> (r: String)
    ensures
        r@ == ref_list(refs@),
{
    let mut parts: Vec<String> = Vec::new();
    let mut i: usize = 0;
    while i < refs.len()
        invariant
            i <= refs@.len(),
            views(parts@) == refs@.take(i as int).map_values(|r: u64| decimal(r as nat)),
        decreases refs@.len() - i,
    {
        let ghost before = parts@;
        parts.push(u64_to_decimal(refs[i]));
        proof {
            assert(views(parts@) =~= views(before).push(decimal(refs@[i as int] as nat)));
            assert(refs@.take(i + 1).map_values(|r: u64| decimal(r as nat)) =~= refs@.take(i as int).map_values(
                |r: u64| decimal(r as nat),
            ).push(decimal(refs@[i as int] as nat)));
        }
        i = i + 1;
    }
    assert(refs@.take(refs@.len() as int) =~= refs@);
    let j = join_strings(parts.as_slice(), ", ");
    let a = concat_str("[", j.as_str());
    concat_str(a.as_str(), "]")
}

/// Renders the restored-context lines of one thought.
pub fn bootstrap_entry_text(reg: &AgentRegistry, t: &Thought, s: &ScoreText) -> (r: String)
    requires
        reg.wf(),
    ensures
        r@ == bootstrap_entry(*reg, *t, *s),
{
    let idx = u64_to_decimal(t.index);
    let label = agent_label_for(reg, t);
    let mut out = concat_str("[#", idx.as_str());
    out = concat_str(out.as_str(), "] ");
    out = concat_str(out.as_str(), t.thought_type.as_str());
    out = concat_str(out.as_str(), " / ");
    out = concat_str(out.as_str(), t.role.debug_name());
    out = concat_str(out.as_str(), " (");
    out = concat_str(out.as_str(), label.as_str());
    out = concat_str(out.as_str(), ")\n");
    out = concat_str(out.as_str(), t.content.as_str());
    out = concat_str(out.as_str(), "\n");
    let ghost head = out@;
    if t.confidence.is_some() {
        out = concat_str(out.as_str(), "  confidence: ");
        out = concat_str(out.as_str(), s.confidence.as_str());
        out = concat_str(out.as_str(), "\n");
    }
    let ghost with_conf = out@;
    out = concat_str(out.as_str(), "  importance: ");
    out = concat_str(out.as_str(), s.importance.as_str());
    out = concat_str(out.as_str(), "\n");
    let ghost with_imp = out@;
    if t.tags.len() > 0 {
        let j = join_strings(t.tags.as_slice(), ", ");
        out = concat_str(out.as_str(), "  tags: ");
        out = concat_str(out.as_str(), j.as_str());
        out = concat_str(out.as_str(), "\n");
    }
    let ghost with_tags = out@;
    if t.concepts.len() > 0 {
        let j = join_strings(t.concepts.as_slice(), ", ");
        out = concat_str(out.as_str(), "  concepts: ");
        out = concat_str(out.as_str(), j.as_str());
        out = concat_str(out.as_str(), "\n");
    }
    let ghost with_concepts = out@;
    if t.refs.len() > 0 {
        let j = render_refs(&t.refs);
        out = concat_str(out.as_str(), "  refs: ");
        out = concat_str(out.as_str(), j.as_str());
        out = concat_str(out.as_str(), "\n");
    }
    proof {
        let conf = if t.confidence is Some {
            "  confidence: "@ + s.confidence@ + "\n"@
        } else {
            Seq::<char>::empty()
        };
        let tags = if t.tags@.len() > 0 {
            "  tags: "@ + join(views(t.tags@), ", "@) + "\n"@
        } else {
            Seq::<char>::empty()
        };
        let concepts = if t.concepts@.len() > 0 {
            "  concepts: "@ + join(views(t.concepts@), ", "@) + "\n"@
        } else {
            Seq::<char>::empty()
        };
        let refs = if t.refs@.len() > 0 {
            "  refs: "@ + ref_list(t.refs@) + "\n"@
        } else {
            Seq::<char>::empty()
        };
        assert(with_conf =~= head + conf);
        assert(with_imp =~= head + conf + "  importance: "@ + s.importance@ + "\n"@);
        assert(with_tags =~= with_imp + tags);
        assert(with_concepts =~= with_tags + concepts);
        assert(out@ =~= with_concepts + refs);
    }
    out
}

/// Renders the catch-up line of one thought.
pub fn catchup_entry_text(reg: &AgentRegistry, t: &Thought) -> (r: String)
    requires
        reg.wf(),
    ensures
        r@ == catchup_entry(*reg, *t),
{
    let idx = u64_to_decimal(t.index);
    let label = agent_label_for(reg, t);
    let mut out = concat_str("[#", idx.as_str());
    out = concat_str(out.as_str(), "] ");
    out = concat_str(out.as_str(), t.thought_type.as_str());
    out = concat_str(out.as_str(), " / ");
    out = concat_str(out.as_str(), t.role.debug_name());
    out = concat_str(out.as_str(), " (");
    out = concat_str(out.as_str(), label.as_str());
    out = concat_str(out.as_str(), ") ");
    out = concat_str(out.as_str(), t.content.as_str());
    concat_str(out.as_str(), "\n")
}


/// The sections of the text a thought is embedded from: its trimmed
/// content, its concepts, its tags, and, when its agent is registered, the
/// agent's display name (when it has one of its own), aliases, owner and
/// description (when not blank).
pub open spec fn embedding_sections(reg: AgentRegistry, t: Thought) -> Seq<Seq<char>> {
    let s0: Seq<Seq<char>> = if trim(t.content@).len() > 0 {
        seq![trim(t.content@)]
    } else {
        Seq::empty()
    };
    let s1 = if t.concepts@.len() > 0 {
        s0.push("Concepts: "@ + join(views(t.concepts@), ", "@))
    } else {
        s0
    };
    let s2 = if t.tags@.len() > 0 {
        s1.push("Tags: "@ + join(views(t.tags@), ", "@))
    } else {
        s1
    };
    match reg.lookup(t.agent_id@) {
        Some(rec) => {
            let s3 = if trim(rec.display_name@).len() > 0 && rec.display_name@ != t.agent_id@ {
                s2.push("Agent: "@ + rec.display_name@)
            } else {
                s2
            };
            let s4 = if rec.aliases@.len() > 0 {
                s3.push("Aliases: "@ + join(views(rec.aliases@), ", "@))
            } else {
                s3
            };
            let s5 = match rec.owner {
                Some(o) => if trim(o@).len() > 0 {
                    s4.push("Owner: "@ + o@)
                } else {
                    s4
                },
                None => s4,
            };
            match rec.description {
                Some(d) => if trim(d@).len() > 0 {
                    s5.push("Description: "@ + d@)
                } else {
                    s5
                },
                None => s5,
            }
        },
        None => s2,
    }
}

/// The text a thought is embedded from: its sections, one per line.
pub open spec fn embedding_text(reg: AgentRegistry, t: Thought) -> Seq<char> {
    join(embedding_sections(reg, t), "\n"@)
}

/// Renders [`embedding_text`].
pub fn thought_embedding_text(reg: &AgentRegistry, t: &Thought) -> (r: String)
    requires
        reg.wf(),
    ensures
        r@ == embedding_text(*reg, *t),
{
    let mut sections: Vec<String> = Vec::new();
    let content = trim_str(t.content.as_str());
    if content.unicode_len() > 0 {
        sections.push(content);
    }
    let ghost g0 = views(sections@);
    if t.concepts.len() > 0 {
        let j = join_strings(t.concepts.as_slice(), ", ");
        sections.push(concat_str("Concepts: ", j.as_str()));
    }
    let ghost g1 = views(sections@);
    if t.tags.len() > 0 {
        let j = join_strings(t.tags.as_slice(), ", ");
        sections.push(concat_str("Tags: ", j.as_str()));
    }
    let ghost g2 = views(sections@);
    proof {
        assert(g0 =~= (if trim(t.content@).len() > 0 { seq![trim(t.content@)] } else { Seq::<Seq<char>>::empty() }));
    }
    match reg.get(t.agent_id.as_str()) {
        Some(rec) => {
            if trim_str(rec.display_name.as_str()).unicode_len() > 0 && !crate::text::str_eq(
                rec.display_name.as_str(),
                t.agent_id.as_str(),
            ) {
                sections.push(concat_str("Agent: ", rec.display_name.as_str()));
            }
            let ghost g3 = views(sections@);
            if rec.aliases.len() > 0 {
                let j = join_strings(rec.aliases.as_slice(), ", ");
                sections.push(concat_str("Aliases: ", j.as_str()));
            }
            let ghost g4 = views(sections@);
            match &rec.owner {
                Some(o) => {
                    if trim_str(o.as_str()).unicode_len() > 0 {
                        sections.push(concat_str("Owner: ", o.as_str()));
                    }
                },
                None => {},
            }
            let ghost g5 = views(sections@);
            match &rec.description {
                Some(d) => {
                    if trim_str(d.as_str()).unicode_len() > 0 {
                        sections.push(concat_str("Description: ", d.as_str()));
                    }
                },
                None => {},
            }
            proof {
                assert(views(sections@) =~= embedding_sections(*reg, *t));
            }
        },
        None => {
            proof {
                assert(views(sections@) =~= embedding_sections(*reg, *t));
            }
        },
    }
    join_strings(sections.as_slice(), "\n")
}

impl MentisDb {
    /// The thoughts of the context of `target_id`: the thought holding that
    /// id and every thought reachable from it through in-chain relations and
    /// in-range references, in chain order.
    pub fn resolve_context_by_id(&self, target_id: u128) -> (r: Vec<&Thought>)
        ensures
            r@.len() == context_positions(self.spec_thoughts(), target_id).len(),
            forall|i: int|
                0 <= i < r@.len() ==> *(#[trigger] r@[i]) == self.spec_thoughts()[context_positions(
                    self.spec_thoughts(),
                    target_id,
                )[i] as int],
    {
        let ts = self.thoughts();
        let n = ts.len();
        let ps = self.resolve_context_positions(target_id);
        proof {
            assert(n == self.spec_thoughts().len());
            lemma_pick_bounds(|q: int| in_context(self.spec_thoughts(), target_id, q), 0, self.spec_thoughts().len() as int);
        }
        let mut r: Vec<&Thought> = Vec::new();
        let mut i: usize = 0;
        while i < ps.len()
            invariant
                ts@ == self.spec_thoughts(),
                ps@ == context_positions(self.spec_thoughts(), target_id),
                forall|j: int| 0 <= j < ps@.len() ==> #[trigger] ps@[j] < ts@.len(),
                i <= ps@.len(),
                r@.len() == i,
                forall|j: int| 0 <= j < i ==> *(#[trigger] r@[j]) == ts@[ps@[j] as int],
            decreases ps@.len() - i,
        {
            assert(ps@[i as int] < ts@.len());
            r.push(&ts[ps[i]]);
            i = i + 1;
        }
        r
    }

    /// The context of the thought at `target_index`; empty when there is no
    /// such thought.
    pub fn resolve_context(&self, target_index: u64) -> (r: Vec<&Thought>)
        ensures
            target_index >= self.spec_thoughts().len() ==> r@.len() == 0,
            target_index < self.spec_thoughts().len() ==> ({
                let ps = context_positions(self.spec_thoughts(), self.spec_thoughts()[target_index as int].id);
                &&& r@.len() == ps.len()
                &&& forall|i: int| 0 <= i < r@.len() ==> *(#[trigger] r@[i]) == self.spec_thoughts()[ps[i] as int]
            }),
    {
        let ts = self.thoughts();
        if target_index >= ts.len() as u64 {
            return Vec::new();
        }
        self.resolve_context_by_id(ts[target_index as usize].id)
    }

    /// The restored-context prompt of the thought at `target_index`: its
    /// context rendered with the given score texts (one per thought of the
    /// chain); empty when the context is.
    pub fn to_bootstrap_prompt(&self, target_index: u64, scores: &[ScoreText]) -> (r: String)
        requires
            self.wf(),
            scores@.len() == self.spec_thoughts().len(),
        ensures
            target_index >= self.spec_thoughts().len() ==> r@.len() == 0,
            target_index < self.spec_thoughts().len() ==> r@ == bootstrap_prompt(
                self.spec_agents(),
                self.spec_thoughts(),
                scores@,
                context_positions(self.spec_thoughts(), self.spec_thoughts()[target_index as int].id),
            ),
    {
        let ts = self.thoughts();
        if target_index >= ts.len() as u64 {
            return String::new();
        }
        let ghost th = self.spec_thoughts();
        let ps = self.resolve_context_positions(ts[target_index as usize].id);
        let ghost target_id = th[target_index as int].id;
        proof {
            lemma_pick_bounds(|q: int| in_context(th, target_id, q), 0, th.len() as int);
            self.lemma_wf();
        }
        if ps.len() == 0 {
            return String::new();
        }
        let reg = self.agent_registry();
        let mut body = String::new();
        let mut i: usize = 0;
        while i < ps.len()
            invariant
                ts@ == th,
                th == self.spec_thoughts(),
                *reg == self.spec_agents(),
                reg.wf(),
                scores@.len() == th.len(),
                forall|j: int| 0 <= j < ps@.len() ==> #[trigger] ps@[j] < th.len(),
                i <= ps@.len(),
                body@ == bootstrap_entries(*reg, th, scores@, ps@.take(i as int)),
            decreases ps@.len() - i,
        {
            let p = ps[i];
            assert(p < th.len());
            let e = bootstrap_entry_text(reg, &ts[p], &scores[p]);
            body = concat_str(body.as_str(), e.as_str());
            proof {
                assert(ps@.take(i + 1).drop_last() =~= ps@.take(i as int));
                assert(ps@.take(i + 1).last() == p);
            }
            i = i + 1;
        }
        assert(ps@.take(ps@.len() as int) =~= ps@);
        let a = concat_str("=== RESTORED CONTEXT (from MentisDb) ===\n\n", body.as_str());
        concat_str(a.as_str(), "\n=== END RESTORED CONTEXT ===\n")
    }

    /// A catch-up prompt of the given thoughts, in the order given; empty
    /// when there are none.
    pub fn to_catchup_prompt_with(&self, thoughts: &[&Thought]) -> (r: String)
        requires
            self.wf(),
        ensures
            r@ == catchup_prompt(self.spec_agents(), thoughts@.map_values(|t: &Thought| *t)),
    {
        let ghost ts = thoughts@.map_values(|t: &Thought| *t);
        if thoughts.len() == 0 {
            return String::new();
        }
        proof {
            self.lemma_wf();
        }
        let reg = self.agent_registry();
        let mut body = String::new();
        let mut i: usize = 0;
        while i < thoughts.len()
            invariant
                ts == thoughts@.map_values(|t: &Thought| *t),
                *reg == self.spec_agents(),
                reg.wf(),
                i <= thoughts@.len(),
                body@ == catchup_entries(*reg, ts.take(i as int)),
            decreases thoughts@.len() - i,
        {
            let e = catchup_entry_text(reg, thoughts[i]);
            body = concat_str(body.as_str(), e.as_str());
            proof {
                assert(ts.take(i + 1).drop_last() =~= ts.take(i as int));
                assert(ts.take(i + 1).last() == *thoughts@[i as int]);
            }
            i = i + 1;
        }
        assert(ts.take(ts.len() as int) =~= ts);
        let a = concat_str("=== RECENT CONTEXT ===\n\n", body.as_str());
        concat_str(a.as_str(), "\n=== END RECENT CONTEXT ===\n")
    }

    /// A catch-up prompt of the last `last_n` thoughts (all of them when the
    /// chain is shorter).
    pub fn to_catchup_prompt(&self, last_n: usize) -> (r: String)
        requires
            self.wf(),
        ensures
            ({
                let n = self.spec_thoughts().len();
                let start = if last_n >= n { 0 } else { n - last_n };
                r@ == catchup_prompt(self.spec_agents(), self.spec_thoughts().subrange(start as int, n as int))
            }),
    {
        let ts = self.thoughts();
        let n = ts.len();
        let start = if last_n >= n { 0 } else { n - last_n };
        let mut tail: Vec<&Thought> = Vec::new();
        let mut i: usize = start;
        while i < n
            invariant
                ts@ == self.spec_thoughts(),
                n == ts@.len(),
                start <= i <= n,
                tail@.len() == i - start,
                forall|j: int| 0 <= j < tail@.len() ==> *(#[trigger] tail@[j]) == ts@[start + j],
            decreases n - i,
        {
            tail.push(&ts[i]);
            i = i + 1;
        }
        assert(tail@.map_values(|t: &Thought| *t) =~= self.spec_thoughts().subrange(start as int, n as int));
        self.to_catchup_prompt_with(tail.as_slice())
    }
}

} // verus!
