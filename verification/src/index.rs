//! Position indexes over the chain: for each key, the sorted positions of
//! the thoughts filed under it. Queries narrow their candidates with them.
use vstd::prelude::*;
use crate::model::Thought;
use crate::positions::{in_first_lists, in_some_list, strictly_sorted, union_position_lists};
use crate::text::{contains_sub, str_contains, str_eq, to_lowercase, trim, trim_str, unicode_lower};

verus! {

/// The field of a thought by which an index files it.
#[derive(Debug, Clone, Copy, PartialEq, Eq, Structural)]
pub enum IndexField {
    /// The producing agent's id.
    AgentId,
    /// The thought type's name.
    ThoughtType,
    /// The role's name.
    Role,
    /// Each tag, lower-cased.
    Tag,
    /// Each concept, lower-cased.
    Concept,
}

/// Whether `field` files thought `t` under `key`.
pub open spec fn files_under(field: IndexField, t: Thought, key: Seq<char>) -> bool {
    match field {
        IndexField::AgentId => t.agent_id@ == key,
        IndexField::ThoughtType => t.thought_type.name() == key,
        IndexField::Role => t.role.name() == key,
        IndexField::Tag => exists|i: int| 0 <= i < t.tags@.len() && unicode_lower((#[trigger] t.tags@[i])@) == key,
        IndexField::Concept => exists|i: int|
            0 <= i < t.concepts@.len() && unicode_lower((#[trigger] t.concepts@[i])@) == key,
    }
}

/// The keys under which `field` files a thought.
fn index_keys(field: IndexField, t: &Thought) -> (r: Vec<String>)
    ensures
        forall|k: Seq<char>| files_under(field, *t, k) <==> exists|j: int| 0 <= j < r@.len() && (#[trigger] r@[j])@ == k,
{
    let mut r: Vec<String> = Vec::new();
    match field {
        IndexField::AgentId => {
            r.push(t.agent_id.clone());
            assert(r@[0]@ == t.agent_id@);
        },
        IndexField::ThoughtType => {
            r.push(String::from_str(t.thought_type.as_str()));
            assert(r@[0]@ == t.thought_type.name());
        },
        IndexField::Role => {
            r.push(String::from_str(t.role.debug_name()));
            assert(r@[0]@ == t.role.name());
        },
        IndexField::Tag | IndexField::Concept => {
            let values = if field == IndexField::Tag {
                &t.tags
            } else {
                &t.concepts
            };
            let mut i: usize = 0;
            while i < values.len()
                invariant
                    i <= values@.len(),
                    r@.len() == i,
                    forall|j: int| 0 <= j < i ==> (#[trigger] r@[j])@ == unicode_lower(values@[j]@),
                decreases values@.len() - i,
            {
                r.push(to_lowercase(values[i].as_str()));
                i = i + 1;
            }
            assert forall|k: Seq<char>| files_under(field, *t, k) <==> exists|j: int|
                0 <= j < r@.len() && (#[trigger] r@[j])@ == k by {
                if files_under(field, *t, k) {
                    if field == IndexField::Tag {
                        let j = choose|j: int| 0 <= j < t.tags@.len() && unicode_lower((#[trigger] t.tags@[j])@) == k;
                        assert(r@[j]@ == k);
                    } else {
                        let j = choose|j: int|
                            0 <= j < t.concepts@.len() && unicode_lower((#[trigger] t.concepts@[j])@) == k;
                        assert(r@[j]@ == k);
                    }
                }
                if exists|j: int| 0 <= j < r@.len() && (#[trigger] r@[j])@ == k {
                    let j = choose|j: int| 0 <= j < r@.len() && (#[trigger] r@[j])@ == k;
                    assert(unicode_lower(values@[j]@) == k);
                }
            }
        },
    }
    r
}

/// One key of an index and the positions filed under it.
pub struct IndexEntry {
    /// The key.
    pub key: String,
    /// Positions, in increasing order.
    pub positions: Vec<usize>,
}

/// A map from keys to the positions of the thoughts filed under them.
pub struct PositionIndex {
    /// Entries with pairwise distinct keys, in no particular order.
    pub entries: Vec<IndexEntry>,
}

/// Whether a position occurs in an entry, or was added for the thought at
/// position `len` under one of the first `m` of its keys.
pub open spec fn filed_while_adding(
    field: IndexField,
    thoughts: Seq<Thought>,
    keys: Seq<String>,
    m: int,
    key: Seq<char>,
    p: usize,
) -> bool {
    ||| (p < thoughts.len() && files_under(field, thoughts[p as int], key))
    ||| (p == thoughts.len() && exists|j: int| 0 <= j < m && (#[trigger] keys[j])@ == key)
}

impl PositionIndex {
    /// Keys are pairwise distinct and every entry's positions are sorted.
    pub open spec fn well_shaped(&self) -> bool {
        &&& forall|i: int, j: int|
            0 <= i < j < self.entries@.len() ==> (#[trigger] self.entries@[i]).key@ != (#[trigger] self.entries@[j]).key@
        &&& forall|i: int| 0 <= i < self.entries@.len() ==> strictly_sorted((#[trigger] self.entries@[i]).positions@)
    }

    /// The index files exactly the positions of `thoughts` under the keys
    /// `field` gives them, and has an entry for every such key.
    pub open spec fn describes(&self, field: IndexField, thoughts: Seq<Thought>) -> bool {
        &&& self.well_shaped()
        &&& forall|i: int, p: usize|
            #![trigger self.entries@[i].positions@.contains(p)]
            0 <= i < self.entries@.len() ==> (self.entries@[i].positions@.contains(p) <==> (p < thoughts.len()
                && files_under(field, thoughts[p as int], self.entries@[i].key@)))
        &&& forall|p: int, k: Seq<char>|
            0 <= p < thoughts.len() && #[trigger] files_under(field, thoughts[p], k) ==> exists|i: int|
                0 <= i < self.entries@.len() && (#[trigger] self.entries@[i]).key@ == k
    }

    /// An empty index.
    pub fn new() -> (r: PositionIndex)
        ensures
            forall|field: IndexField| r.describes(field, Seq::<Thought>::empty()),
            r.entries@.len() == 0,
    {
        PositionIndex { entries: Vec::new() }
    }

    /// Where the entry with this key sits, if any.
    fn find(&self, key: &str) -> (r: Option<usize>)
        ensures
            r matches Some(i) ==> i < self.entries@.len() && self.entries@[i as int].key@ == key@,
            r is None ==> forall|i: int| 0 <= i < self.entries@.len() ==> (#[trigger] self.entries@[i]).key@ != key@,
    {
        let mut i: usize = 0;
        while i < self.entries.len()
            invariant
                i <= self.entries@.len(),
                forall|j: int| 0 <= j < i ==> (#[trigger] self.entries@[j]).key@ != key@,
            decreases self.entries@.len() - i,
        {
            if str_eq(self.entries[i].key.as_str(), key) {
                return Some(i);
            }
            i = i + 1;
        }
        None
    }

    /// Files the thought at position `thoughts.len()` under each of its keys.
    pub fn observe(&mut self, field: IndexField, Ghost(thoughts): Ghost<Seq<Thought>>, position: usize, t: &Thought)
        requires
            old(self).describes(field, thoughts),
            position == thoughts.len(),
        ensures
            final(self).describes(field, thoughts.push(*t)),
    {
        let keys = index_keys(field, t);
        let ghost all = thoughts.push(*t);
        let mut m: usize = 0;
        while m < keys.len()
            invariant
                m <= keys@.len(),
                position == thoughts.len(),
                all == thoughts.push(*t),
                forall|k: Seq<char>| files_under(field, *t, k) <==> exists|j: int| 0 <= j < keys@.len() && (#[trigger] keys@[j])@ == k,
                self.well_shaped(),
                forall|i: int, p: usize|
                    #![trigger self.entries@[i].positions@.contains(p)]
                    0 <= i < self.entries@.len() ==> (self.entries@[i].positions@.contains(p) <==> filed_while_adding(
                        field,
                        thoughts,
                        keys@,
                        m as int,
                        self.entries@[i].key@,
                        p,
                    )),
                forall|p: int, k: Seq<char>|
                    0 <= p < thoughts.len() && #[trigger] files_under(field, thoughts[p], k) ==> exists|i: int|
                        0 <= i < self.entries@.len() && (#[trigger] self.entries@[i]).key@ == k,
                forall|j: int| 0 <= j < m ==> exists|i: int| 0 <= i < self.entries@.len() && (#[trigger] self.entries@[i]).key@ == (#[trigger] keys@[j])@,
            decreases keys@.len() - m,
        {
            let key = &keys[m];
            let ghost old_entries = self.entries@;
            match self.find(key.as_str()) {
                Some(i) => {
                    let mut e = self.entries.remove(i);
                    let n = e.positions.len();
                    if n == 0 || e.positions[n - 1] != position {
                        proof {
                            assert(e == old_entries[i as int]);
                            assert forall|a: int| 0 <= a < n implies e.positions@[a] <= position by {
                                assert(old_entries[i as int].positions@.contains(e.positions@[a]));
                            }
                            assert forall|a: int| 0 <= a < n implies e.positions@[a] < position by {
                                if e.positions@[a] == position && a < n - 1 {
                                    assert(e.positions@[a] < e.positions@[n - 1]);
                                    assert(e.positions@[n - 1] <= position);
                                }
                            }
                        }
                        e.positions.push(position);
                    }
                    self.entries.insert(i, e);
                    proof {
                        assert(self.entries@ =~= old_entries.update(i as int, e));
                        assert forall|a: int, b: int| 0 <= a < b < self.entries@.len() implies (
                        #[trigger] self.entries@[a]).key@ != (#[trigger] self.entries@[b]).key@ by {
                            assert(old_entries[a].key@ != old_entries[b].key@);
                        }
                        assert forall|a: int| 0 <= a < self.entries@.len() implies strictly_sorted(
                            (#[trigger] self.entries@[a]).positions@,
                        ) by {
                            if a != i {
                                assert(self.entries@[a] == old_entries[a]);
                            }
                        }
                        assert forall|a: int, p: usize|
                            #![trigger self.entries@[a].positions@.contains(p)]
                            0 <= a < self.entries@.len() implies (self.entries@[a].positions@.contains(p)
                                <==> filed_while_adding(field, thoughts, keys@, m + 1, self.entries@[a].key@, p)) by {
                            if a != i {
                                assert(self.entries@[a] == old_entries[a]);
                                assert(old_entries[a].key@ != key@);
                                if filed_while_adding(field, thoughts, keys@, m + 1, self.entries@[a].key@, p) {
                                    if p == thoughts.len() && !(p < thoughts.len() && files_under(field, thoughts[p as int], self.entries@[a].key@)) {
                                        let j = choose|j: int| 0 <= j < m + 1 && (#[trigger] keys@[j])@ == self.entries@[a].key@;
                                        assert(j != m);
                                    }
                                    assert(filed_while_adding(field, thoughts, keys@, m as int, self.entries@[a].key@, p));
                                }
                            } else {
                                if p == position {
                                    assert(keys@[m as int]@ == self.entries@[a].key@);
                                    if old_entries[a].positions@.contains(p) {
                                        assert(self.entries@[a].positions@.contains(p));
                                    } else {
                                        assert(self.entries@[a].positions@.last() == p);
                                    }
                                }
                                if filed_while_adding(field, thoughts, keys@, m as int, self.entries@[a].key@, p) {
                                    assert(old_entries[a].positions@.contains(p));
                                    let q = choose|q: int| 0 <= q < old_entries[a].positions@.len() && old_entries[a].positions@[q] == p;
                                    assert(self.entries@[a].positions@[q] == p);
                                }
                                if self.entries@[a].positions@.contains(p) && p != position {
                                    let q = choose|q: int| 0 <= q < self.entries@[a].positions@.len() && self.entries@[a].positions@[q] == p;
                                    assert(q < old_entries[a].positions@.len());
                                    assert(old_entries[a].positions@[q] == p);
                                    assert(old_entries[a].positions@.contains(p));
                                }
                            }
                        }
                        assert forall|p: int, k: Seq<char>|
                            0 <= p < thoughts.len() && #[trigger] files_under(field, thoughts[p], k) implies exists|a: int|
                                0 <= a < self.entries@.len() && (#[trigger] self.entries@[a]).key@ == k by {
                            let a = choose|a: int| 0 <= a < old_entries.len() && (#[trigger] old_entries[a]).key@ == k;
                            assert(self.entries@[a].key@ == k);
                        }
                        assert forall|j: int| 0 <= j < m + 1 implies exists|a: int|
                            0 <= a < self.entries@.len() && (#[trigger] self.entries@[a]).key@ == (#[trigger] keys@[j])@ by {
                            if j < m {
                                let a = choose|a: int| 0 <= a < old_entries.len() && (#[trigger] old_entries[a]).key@ == (#[trigger] keys@[j])@;
                                assert(self.entries@[a].key@ == keys@[j]@);
                            } else {
                                assert(self.entries@[i as int].key@ == keys@[j]@);
                            }
                        }
                    }
                },
                None => {
                    let mut ps: Vec<usize> = Vec::new();
                    ps.push(position);
                    let e = IndexEntry { key: key.clone(), positions: ps };
                    self.entries.push(e);
                    proof {
                        let n = old_entries.len();
                        assert(self.entries@ =~= old_entries.push(e));
                        assert forall|a: int, b: int| 0 <= a < b < self.entries@.len() implies (
                        #[trigger] self.entries@[a]).key@ != (#[trigger] self.entries@[b]).key@ by {
                            if b < n {
                                assert(old_entries[a].key@ != old_entries[b].key@);
                            } else {
                                assert(old_entries[a].key@ != key@);
                            }
                        }
                        assert forall|a: int| 0 <= a < self.entries@.len() implies strictly_sorted(
                            (#[trigger] self.entries@[a]).positions@,
                        ) by {
                            if a < n {
                                assert(self.entries@[a] == old_entries[a]);
                            }
                        }
                        assert forall|a: int, p: usize|
                            #![trigger self.entries@[a].positions@.contains(p)]
                            0 <= a < self.entries@.len() implies (self.entries@[a].positions@.contains(p)
                                <==> filed_while_adding(field, thoughts, keys@, m + 1, self.entries@[a].key@, p)) by {
                            if a < n {
                                assert(self.entries@[a] == old_entries[a]);
                                assert(old_entries[a].key@ != key@);
                                if filed_while_adding(field, thoughts, keys@, m + 1, self.entries@[a].key@, p) {
                                    if p == thoughts.len() && !(p < thoughts.len() && files_under(field, thoughts[p as int], self.entries@[a].key@)) {
                                        let j = choose|j: int| 0 <= j < m + 1 && (#[trigger] keys@[j])@ == self.entries@[a].key@;
                                        assert(j != m);
                                    }
                                    assert(filed_while_adding(field, thoughts, keys@, m as int, self.entries@[a].key@, p));
                                }
                            } else {
                                if p < thoughts.len() && files_under(field, thoughts[p as int], key@) {
                                    let b = choose|b: int| 0 <= b < old_entries.len() && (#[trigger] old_entries[b]).key@ == key@;
                                    assert(false);
                                }
                                if p == thoughts.len() {
                                    assert(self.entries@[a].positions@[0] == p);
                                    assert(keys@[m as int]@ == key@);
                                }
                                if exists|j: int| 0 <= j < m && (#[trigger] keys@[j])@ == key@ {
                                    let j = choose|j: int| 0 <= j < m && (#[trigger] keys@[j])@ == key@;
                                    let b = choose|b: int| 0 <= b < old_entries.len() && (#[trigger] old_entries[b]).key@ == (#[trigger] keys@[j])@;
                                    assert(false);
                                }
                                if self.entries@[a].positions@.contains(p) {
                                    assert(p == position);
                                    assert(keys@[m as int]@ == key@);
                                }
                            }
                        }
                        assert forall|p: int, k: Seq<char>|
                            0 <= p < thoughts.len() && #[trigger] files_under(field, thoughts[p], k) implies exists|a: int|
                                0 <= a < self.entries@.len() && (#[trigger] self.entries@[a]).key@ == k by {
                            let a = choose|a: int| 0 <= a < old_entries.len() && (#[trigger] old_entries[a]).key@ == k;
                            assert(self.entries@[a].key@ == k);
                        }
                        assert forall|j: int| 0 <= j < m + 1 implies exists|a: int|
                            0 <= a < self.entries@.len() && (#[trigger] self.entries@[a]).key@ == (#[trigger] keys@[j])@ by {
                            if j < m {
                                let a = choose|a: int| 0 <= a < old_entries.len() && (#[trigger] old_entries[a]).key@ == (#[trigger] keys@[j])@;
                                assert(self.entries@[a].key@ == keys@[j]@);
                            } else {
                                assert(self.entries@[n as int].key@ == keys@[j]@);
                            }
                        }
                    }
                },
            }
            m = m + 1;
        }
        proof {
            assert forall|i: int, p: usize|
                #![trigger self.entries@[i].positions@.contains(p)]
                0 <= i < self.entries@.len() implies (self.entries@[i].positions@.contains(p) <==> (p < all.len()
                    && files_under(field, all[p as int], self.entries@[i].key@))) by {
                if p == thoughts.len() {
                    assert(all[p as int] == *t);
                } else if p < thoughts.len() {
                    assert(all[p as int] == thoughts[p as int]);
                }
            }
            assert forall|p: int, k: Seq<char>|
                0 <= p < all.len() && #[trigger] files_under(field, all[p], k) implies exists|i: int|
                    0 <= i < self.entries@.len() && (#[trigger] self.entries@[i]).key@ == k by {
                if p < thoughts.len() {
                    assert(all[p] == thoughts[p]);
                    assert(files_under(field, thoughts[p], k));
                } else {
                    assert(all[p] == *t);
                    let j = choose|j: int| 0 <= j < keys@.len() && (#[trigger] keys@[j])@ == k;
                    assert(exists|i: int| 0 <= i < self.entries@.len() && (#[trigger] self.entries@[i]).key@ == (#[trigger] keys@[j])@);
                }
            }
        }
    }
}

/// Copies a list of positions.
fn copy_positions(v: &Vec<usize>) -> (r: Vec<usize>)
    ensures
        r@ == v@,
{
    let mut r: Vec<usize> = Vec::new();
    let mut i: usize = 0;
    while i < v.len()
        invariant
            i <= v@.len(),
            r@ == v@.subrange(0, i as int),
        decreases v@.len() - i,
    {
        r.push(v[i]);
        i = i + 1;
    }
    assert(v@.subrange(0, v@.len() as int) =~= v@);
    r
}

/// Whether one of the first `m` needles, trimmed and lower-cased, is
/// non-empty and occurs in `key`.
pub open spec fn hits_first(key: Seq<char>, needles: Seq<String>, m: int) -> bool {
    exists|j: int| 0 <= j < m && j < needles.len() && {
        let n = unicode_lower(trim((#[trigger] needles[j])@));
        n.len() > 0 && contains_sub(key, n)
    }
}

/// Whether some needle, trimmed and lower-cased, is non-empty and occurs in `key`.
pub open spec fn key_hits(key: Seq<char>, needles: Seq<String>) -> bool {
    hits_first(key, needles, needles.len() as int)
}

/// Whether one of the prepared needles occurs in `key`.
pub open spec fn hits_prepared(key: Seq<char>, prepared: Seq<String>) -> bool {
    exists|q: int| 0 <= q < prepared.len() && contains_sub(key, (#[trigger] prepared[q])@)
}

impl PositionIndex {
    /// The sorted positions filed under any of `keys`.
    pub fn positions_for_keys(
        &self,
        keys: &[String],
        Ghost(field): Ghost<IndexField>,
        Ghost(thoughts): Ghost<Seq<Thought>>,
    ) -> (r: Vec<usize>)
        requires
            self.describes(field, thoughts),
        ensures
            strictly_sorted(r@),
            forall|p: usize| r@.contains(p) <==> (p < thoughts.len() && exists|j: int|
                0 <= j < keys@.len() && files_under(field, thoughts[p as int], (#[trigger] keys@[j])@)),
    {
        let mut lists: Vec<Vec<usize>> = Vec::new();
        let mut j: usize = 0;
        while j < keys.len()
            invariant
                self.describes(field, thoughts),
                j <= keys@.len(),
                forall|x: usize| in_first_lists(lists@, lists@.len() as int, x) <==> (x < thoughts.len() && exists|q: int|
                    0 <= q < j && files_under(field, thoughts[x as int], (#[trigger] keys@[q])@)),
            decreases keys@.len() - j,
        {
            let ghost before = lists@;
            match self.find(keys[j].as_str()) {
                Some(i) => {
                    let l = copy_positions(&self.entries[i].positions);
                    lists.push(l);
                    proof {
                        assert forall|x: usize| in_first_lists(lists@, lists@.len() as int, x) <==> (x < thoughts.len()
                            && exists|q: int| 0 <= q < j + 1 && files_under(field, thoughts[x as int], (#[trigger] keys@[q])@)) by {
                            if in_first_lists(lists@, lists@.len() as int, x) {
                                let m = choose|m: int| 0 <= m < lists@.len() && m < lists@.len() && (#[trigger] lists@[m])@.contains(x);
                                if m < before.len() {
                                    assert(lists@[m] == before[m]);
                                    assert(in_first_lists(before, before.len() as int, x));
                                } else {
                                    assert(self.entries@[i as int].positions@.contains(x));
                                    assert(files_under(field, thoughts[x as int], keys@[j as int]@));
                                }
                            }
                            if x < thoughts.len() && exists|q: int| 0 <= q < j + 1 && files_under(field, thoughts[x as int], (#[trigger] keys@[q])@) {
                                let q = choose|q: int| 0 <= q < j + 1 && files_under(field, thoughts[x as int], (#[trigger] keys@[q])@);
                                if q < j {
                                    assert(in_first_lists(before, before.len() as int, x));
                                    let m = choose|m: int| 0 <= m < before.len() && m < before.len() && (#[trigger] before[m])@.contains(x);
                                    assert(lists@[m] == before[m]);
                                } else {
                                    assert(self.entries@[i as int].positions@.contains(x));
                                    assert(lists@[before.len() as int]@.contains(x));
                                }
                            }
                        }
                    }
                },
                None => {
                    proof {
                        assert forall|x: usize| x < thoughts.len() && files_under(field, thoughts[x as int], keys@[j as int]@) implies false by {
                            let a = choose|a: int| 0 <= a < self.entries@.len() && (#[trigger] self.entries@[a]).key@ == keys@[j as int]@;
                        }
                        assert forall|x: usize| in_first_lists(lists@, lists@.len() as int, x) <==> (x < thoughts.len()
                            && exists|q: int| 0 <= q < j + 1 && files_under(field, thoughts[x as int], (#[trigger] keys@[q])@)) by {
                            if x < thoughts.len() && exists|q: int| 0 <= q < j + 1 && files_under(field, thoughts[x as int], (#[trigger] keys@[q])@) {
                                let q = choose|q: int| 0 <= q < j + 1 && files_under(field, thoughts[x as int], (#[trigger] keys@[q])@);
                                assert(q < j);
                            }
                        }
                    }
                },
            }
            j = j + 1;
        }
        union_position_lists(lists.as_slice())
    }
}

/// The sorted positions filed under every key in which some needle occurs,
/// each needle trimmed and lower-cased; empty needles are dropped, and when
/// none is left nothing matches.
pub fn matching_index_positions(
    index: &PositionIndex,
    needles: &[String],
    Ghost(field): Ghost<IndexField>,
    Ghost(thoughts): Ghost<Seq<Thought>>,
) -> (r: Vec<usize>)
    requires
        index.describes(field, thoughts),
    ensures
        strictly_sorted(r@),
        forall|p: usize| r@.contains(p) <==> (p < thoughts.len() && exists|k: Seq<char>|
            #[trigger] files_under(field, thoughts[p as int], k) && key_hits(k, needles@)),
{
    let mut normalized: Vec<String> = Vec::new();
    let mut j: usize = 0;
    while j < needles.len()
        invariant
            j <= needles@.len(),
            forall|q: int| 0 <= q < normalized@.len() ==> (#[trigger] normalized@[q])@.len() > 0,
            forall|k: Seq<char>|
                #![trigger hits_prepared(k, normalized@)]
                #![trigger hits_first(k, needles@, j as int)]
                hits_prepared(k, normalized@) <==> hits_first(k, needles@, j as int),
        decreases needles@.len() - j,
    {
        let t = trim_str(needles[j].as_str());
        let n = to_lowercase(t.as_str());
        let ghost before = normalized@;
        if n.unicode_len() > 0 {
            normalized.push(n);
        }
        proof {
            assert forall|k: Seq<char>| hits_prepared(k, normalized@) <==> hits_first(k, needles@, j + 1) by {
                if hits_prepared(k, normalized@) {
                    let q = choose|q: int| 0 <= q < normalized@.len() && contains_sub(k, (#[trigger] normalized@[q])@);
                    if q < before.len() {
                        assert(normalized@[q] == before[q]);
                        assert(hits_prepared(k, before));
                        assert(hits_first(k, needles@, j as int));
                        let q2 = choose|q2: int| 0 <= q2 < j && q2 < needles@.len() && {
                            let n = unicode_lower(trim((#[trigger] needles@[q2])@));
                            n.len() > 0 && contains_sub(k, n)
                        };
                    } else {
                        assert(normalized@[q]@ == n@);
                    }
                }
                if hits_first(k, needles@, j + 1) {
                    let q = choose|q: int| 0 <= q < j + 1 && q < needles@.len() && {
                        let n = unicode_lower(trim((#[trigger] needles@[q])@));
                        n.len() > 0 && contains_sub(k, n)
                    };
                    if q < j {
                        assert(hits_first(k, needles@, j as int));
                        assert(hits_prepared(k, before));
                        let q2 = choose|q2: int| 0 <= q2 < before.len() && contains_sub(k, (#[trigger] before[q2])@);
                        assert(normalized@[q2] == before[q2]);
                    } else {
                        assert(normalized@[before.len() as int]@ == n@);
                    }
                }
            }
        }
        j = j + 1;
    }
    if normalized.len() == 0 {
        proof {
            assert forall|p: usize, k: Seq<char>| #[trigger] files_under(field, thoughts[p as int], k) implies !key_hits(k, needles@) by {
                if key_hits(k, needles@) {
                    assert(hits_first(k, needles@, needles@.len() as int));
                    let q = choose|q: int| 0 <= q < needles@.len() && q < needles@.len() && {
                        let n = unicode_lower(trim((#[trigger] needles@[q])@));
                        n.len() > 0 && contains_sub(k, n)
                    };
                    assert(!hits_prepared(k, normalized@));
                }
            }
        }
        return Vec::new();
    }
    let mut lists: Vec<Vec<usize>> = Vec::new();
    let mut i: usize = 0;
    while i < index.entries.len()
        invariant
            index.describes(field, thoughts),
            i <= index.entries@.len(),
            forall|k: Seq<char>|
                #![trigger hits_prepared(k, normalized@)]
                #![trigger key_hits(k, needles@)]
                hits_prepared(k, normalized@) <==> key_hits(k, needles@),
            forall|x: usize| in_first_lists(lists@, lists@.len() as int, x) <==> exists|a: int|
                0 <= a < i && key_hits((#[trigger] index.entries@[a]).key@, needles@) && index.entries@[a].positions@.contains(x),
        decreases index.entries@.len() - i,
    {
        let key = index.entries[i].key.as_str();
        let mut hit = false;
        let mut q: usize = 0;
        while q < normalized.len()
            invariant
                q <= normalized@.len(),
                hit == exists|b: int| 0 <= b < q && contains_sub(key@, (#[trigger] normalized@[b])@),
            decreases normalized@.len() - q,
        {
            if str_contains(key, normalized[q].as_str()) {
                hit = true;
            }
            q = q + 1;
        }
        let ghost before = lists@;
        if hit {
            let l = copy_positions(&index.entries[i].positions);
            lists.push(l);
        }
        proof {
            assert(hit == hits_prepared(key@, normalized@));
            assert(hit == key_hits(index.entries@[i as int].key@, needles@));
            assert forall|x: usize| in_first_lists(lists@, lists@.len() as int, x) <==> exists|a: int|
                0 <= a < i + 1 && key_hits((#[trigger] index.entries@[a]).key@, needles@) && index.entries@[a].positions@.contains(x) by {
                if in_first_lists(lists@, lists@.len() as int, x) {
                    let m = choose|m: int| 0 <= m < lists@.len() && m < lists@.len() && (#[trigger] lists@[m])@.contains(x);
                    if m < before.len() {
                        assert(lists@[m] == before[m]);
                        assert(in_first_lists(before, before.len() as int, x));
                    } else {
                        assert(index.entries@[i as int].positions@.contains(x));
                    }
                }
                if exists|a: int| 0 <= a < i + 1 && key_hits((#[trigger] index.entries@[a]).key@, needles@) && index.entries@[a].positions@.contains(x) {
                    let a = choose|a: int| 0 <= a < i + 1 && key_hits((#[trigger] index.entries@[a]).key@, needles@) && index.entries@[a].positions@.contains(x);
                    if a < i {
                        assert(in_first_lists(before, before.len() as int, x));
                        let m = choose|m: int| 0 <= m < before.len() && m < before.len() && (#[trigger] before[m])@.contains(x);
                        assert(lists@[m] == before[m]);
                    } else {
                        assert(lists@[before.len() as int]@.contains(x));
                    }
                }
            }
        }
        i = i + 1;
    }
    let r = union_position_lists(lists.as_slice());
    proof {
        assert forall|p: usize| r@.contains(p) <==> (p < thoughts.len() && exists|k: Seq<char>|
            #[trigger] files_under(field, thoughts[p as int], k) && key_hits(k, needles@)) by {
            if r@.contains(p) {
                assert(in_first_lists(lists@, lists@.len() as int, p));
                let a = choose|a: int| 0 <= a < index.entries@.len() && key_hits((#[trigger] index.entries@[a]).key@, needles@) && index.entries@[a].positions@.contains(p);
                assert(files_under(field, thoughts[p as int], index.entries@[a].key@));
            }
            if p < thoughts.len() && exists|k: Seq<char>| #[trigger] files_under(field, thoughts[p as int], k) && key_hits(k, needles@) {
                let k = choose|k: Seq<char>| #[trigger] files_under(field, thoughts[p as int], k) && key_hits(k, needles@);
                let a = choose|a: int| 0 <= a < index.entries@.len() && (#[trigger] index.entries@[a]).key@ == k;
                assert(index.entries@[a].positions@.contains(p));
                assert(in_first_lists(lists@, lists@.len() as int, p));
            }
        }
    }
    r
}

/// The five indexes a query can narrow its candidates with.
pub struct QueryIndexes {
    /// By agent id.
    pub by_agent_id: PositionIndex,
    /// By thought type name.
    pub by_thought_type: PositionIndex,
    /// By role name.
    pub by_role: PositionIndex,
    /// By lower-cased tag.
    pub by_tag: PositionIndex,
    /// By lower-cased concept.
    pub by_concept: PositionIndex,
}

impl QueryIndexes {
    /// Each index describes `thoughts` by its own field.
    pub open spec fn describes(&self, thoughts: Seq<Thought>) -> bool {
        &&& self.by_agent_id.describes(IndexField::AgentId, thoughts)
        &&& self.by_thought_type.describes(IndexField::ThoughtType, thoughts)
        &&& self.by_role.describes(IndexField::Role, thoughts)
        &&& self.by_tag.describes(IndexField::Tag, thoughts)
        &&& self.by_concept.describes(IndexField::Concept, thoughts)
    }

    /// Indexes of an empty chain.
    pub fn new() -> (r: QueryIndexes)
        ensures
            r.describes(Seq::<Thought>::empty()),
            r.by_agent_id.entries@.len() == 0,
            r.by_thought_type.entries@.len() == 0,
            r.by_role.entries@.len() == 0,
            r.by_tag.entries@.len() == 0,
            r.by_concept.entries@.len() == 0,
    {
        QueryIndexes {
            by_agent_id: PositionIndex::new(),
            by_thought_type: PositionIndex::new(),
            by_role: PositionIndex::new(),
            by_tag: PositionIndex::new(),
            by_concept: PositionIndex::new(),
        }
    }

    /// Files the thought at the next position in every index.
    pub fn observe(&mut self, Ghost(thoughts): Ghost<Seq<Thought>>, position: usize, t: &Thought)
        requires
            old(self).describes(thoughts),
            position == thoughts.len(),
        ensures
            final(self).describes(thoughts.push(*t)),
    {
        self.by_agent_id.observe(IndexField::AgentId, Ghost(thoughts), position, t);
        self.by_thought_type.observe(IndexField::ThoughtType, Ghost(thoughts), position, t);
        self.by_role.observe(IndexField::Role, Ghost(thoughts), position, t);
        self.by_tag.observe(IndexField::Tag, Ghost(thoughts), position, t);
        self.by_concept.observe(IndexField::Concept, Ghost(thoughts), position, t);
    }

    /// Indexes of a whole chain.
    pub fn from_thoughts(thoughts: &[Thought]) -> (r: QueryIndexes)
        ensures
            r.describes(thoughts@),
    {
        let mut r = QueryIndexes::new();
        let mut p: usize = 0;
        while p < thoughts.len()
            invariant
                p <= thoughts@.len(),
                r.describes(thoughts@.subrange(0, p as int)),
            decreases thoughts@.len() - p,
        {
            let ghost prefix = thoughts@.subrange(0, p as int);
            r.observe(Ghost(prefix), p, &thoughts[p]);
            assert(prefix.push(thoughts@[p as int]) =~= thoughts@.subrange(0, p + 1));
            p = p + 1;
        }
        assert(thoughts@.subrange(0, thoughts@.len() as int) =~= thoughts@);
        r
    }
}

/// Whether two thoughts agree on every field the indexes read.
pub open spec fn same_index_fields(a: Thought, b: Thought) -> bool {
    &&& a.agent_id@ == b.agent_id@
    &&& a.thought_type == b.thought_type
    &&& a.role == b.role
    &&& a.tags@ == b.tags@
    &&& a.concepts@ == b.concepts@
}

/// Indexes that describe a chain describe every chain that agrees with it
/// on the indexed fields.
pub proof fn lemma_describes_same_fields(ix: QueryIndexes, a: Seq<Thought>, b: Seq<Thought>)
    requires
        ix.describes(a),
        a.len() == b.len(),
        forall|i: int| 0 <= i < a.len() ==> same_index_fields(#[trigger] a[i], b[i]),
    ensures
        ix.describes(b),
{
    assert forall|f: IndexField, p: int, k: Seq<char>| 0 <= p < a.len() implies files_under(f, a[p], k) == #[trigger] files_under(f, b[p], k) by {
        assert(same_index_fields(a[p], b[p]));
        assert(a[p].tags@ == b[p].tags@);
        assert(a[p].concepts@ == b[p].concepts@);
    }
    assert forall|f: IndexField, p: int, k: Seq<char>| 0 <= p < a.len() implies files_under(f, a[p], k) == #[trigger] files_under(f, b[p], k) by {
        assert(same_index_fields(a[p], b[p]));
    }
    lemma_index_same(ix.by_agent_id, IndexField::AgentId, a, b);
    lemma_index_same(ix.by_thought_type, IndexField::ThoughtType, a, b);
    lemma_index_same(ix.by_role, IndexField::Role, a, b);
    lemma_index_same(ix.by_tag, IndexField::Tag, a, b);
    lemma_index_same(ix.by_concept, IndexField::Concept, a, b);
}

proof fn lemma_index_same(ix: PositionIndex, f: IndexField, a: Seq<Thought>, b: Seq<Thought>)
    requires
        ix.describes(f, a),
        a.len() == b.len(),
        forall|p: int, k: Seq<char>| 0 <= p < a.len() ==> files_under(f, a[p], k) == #[trigger] files_under(f, b[p], k),
    ensures
        ix.describes(f, b),
{
    assert forall|i: int, p: usize|
        #![trigger ix.entries@[i].positions@.contains(p)]
        0 <= i < ix.entries@.len() implies (ix.entries@[i].positions@.contains(p) <==> (p < b.len()
            && files_under(f, b[p as int], ix.entries@[i].key@))) by {
        if p < a.len() {
            assert(files_under(f, a[p as int], ix.entries@[i].key@) == files_under(f, b[p as int], ix.entries@[i].key@));
        }
    }
    assert forall|p: int, k: Seq<char>|
        0 <= p < b.len() && #[trigger] files_under(f, b[p], k) implies exists|i: int|
            0 <= i < ix.entries@.len() && (#[trigger] ix.entries@[i]).key@ == k by {
        assert(files_under(f, a[p], k));
    }
}

} // verus!
