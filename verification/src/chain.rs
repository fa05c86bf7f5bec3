//! The in-memory hash chain: integrity of the links, the append protocol,
//! lookups, and the set of thoughts hidden by later corrections.
use vstd::prelude::*;
use crate::hashing::{compute_thought_hash, thought_hash};
use crate::kinds::{invalidating, is_invalidating_relation_kind, ThoughtRelationKind, MENTISDB_CURRENT_VERSION};
use crate::model::{
    clamp_unit, normalize_seq, normalize_strings, opt_view, relation_key, trim_optional, trimmed_non_empty, views,
    ChainError, Thought, ThoughtInput, ThoughtRelation, Timestamp, ts_le, ts_lt,
};
use crate::registry::{AgentRegistry, EntityTypeRegistry};
use crate::index::{lemma_describes_same_fields, QueryIndexes};
use crate::text::{concat_str, str_eq, u64_to_decimal, decimal};

verus! {

/// The hash a thought must carry to link into a chain after `prev`.
pub open spec fn expected_prev_hash(thoughts: Seq<Thought>, i: int) -> Seq<char> {
    if i == 0 {
        Seq::empty()
    } else {
        thoughts[i - 1].hash@
    }
}

/// Thought `i` sits at its position, links to its predecessor and carries
/// the hash of its own contents.
pub open spec fn link_ok(thoughts: Seq<Thought>, i: int) -> bool {
    &&& thoughts[i].index == i
    &&& thoughts[i].prev_hash@ == expected_prev_hash(thoughts, i)
    &&& thoughts[i].hash@ == thought_hash(thoughts[i].hash_body@, thoughts[i].prev_hash@)
}

/// Thought `i` sits at its position, links to its predecessor and carries
/// the hash `hashes[i]`.
pub open spec fn link_with(thoughts: Seq<Thought>, hashes: Seq<String>, i: int) -> bool {
    &&& thoughts[i].index == i
    &&& thoughts[i].prev_hash@ == expected_prev_hash(thoughts, i)
    &&& thoughts[i].hash@ == hashes[i]@
}

/// Every thought is in place, linked and correctly hashed.
pub open spec fn chain_valid(thoughts: Seq<Thought>) -> bool {
    forall|i: int| 0 <= i < thoughts.len() ==> #[trigger] link_ok(thoughts, i)
}

/// Whether some thought of the chain has an invalidating relation to `id`.
pub open spec fn invalidated_by_chain(thoughts: Seq<Thought>, id: u128) -> bool {
    exists|i: int, r: int|
        0 <= i < thoughts.len() && 0 <= r < thoughts[i].relations@.len() && invalidating(
            (#[trigger] thoughts[i].relations@[r]).kind,
        ) && thoughts[i].relations@[r].target_id == id
}

/// How many of the thoughts were written by `agent_id`.
pub open spec fn agent_thought_count(thoughts: Seq<Thought>, agent_id: Seq<char>) -> int
    decreases thoughts.len(),
{
    if thoughts.len() == 0 {
        0
    } else {
        agent_thought_count(thoughts.drop_last(), agent_id) + if thoughts.last().agent_id@ == agent_id {
            1int
        } else {
            0int
        }
    }
}

/// How many of the thoughts carry the entity type `label`.
pub open spec fn entity_thought_count(thoughts: Seq<Thought>, label: Seq<char>) -> int
    decreases thoughts.len(),
{
    if thoughts.len() == 0 {
        0
    } else {
        entity_thought_count(thoughts.drop_last(), label) + if opt_view(thoughts.last().entity_type) == Some(label) {
            1int
        } else {
            0int
        }
    }
}

/// Whether one of `t`'s relations supersedes, corrects or invalidates `id`.
pub open spec fn thought_invalidates(t: Thought, id: u128) -> bool {
    exists|r: int| 0 <= r < t.relations@.len() && invalidating((#[trigger] t.relations@[r]).kind) && t.relations@[r].target_id == id
}

/// Tampering with a sealed thought is detected: in an intact chain,
/// replacing one thought's encoded contents by bytes that hash differently,
/// while keeping its stored hash, leaves a chain that is not intact.
pub proof fn lemma_tampered_contents_break_chain(thoughts: Seq<Thought>, i: int, body: Vec<u8>)
    requires
        chain_valid(thoughts),
        0 <= i < thoughts.len(),
        thought_hash(body@, thoughts[i].prev_hash@) != thought_hash(thoughts[i].hash_body@, thoughts[i].prev_hash@),
    ensures
        !chain_valid(thoughts.update(i, Thought { hash_body: body, ..thoughts[i] })),
{
    let tampered = thoughts.update(i, Thought { hash_body: body, ..thoughts[i] });
    assert(link_ok(thoughts, i));
    assert(tampered[i].hash@ == thoughts[i].hash@);
    assert(!link_ok(tampered, i));
}

/// A thought that supersedes, corrects or invalidates `id` hides it: once
/// that thought is appended, `id` counts as invalidated.
pub proof fn lemma_correction_hides_target(thoughts: Seq<Thought>, t: Thought, r: int)
    requires
        0 <= r < t.relations@.len(),
        t.relations@[r].kind is Supersedes || t.relations@[r].kind is Corrects || t.relations@[r].kind is Invalidates,
    ensures
        invalidated_by_chain(thoughts.push(t), t.relations@[r].target_id),
{
    let s = thoughts.push(t);
    assert(s[thoughts.len() as int] == t);
    assert(invalidating(s[thoughts.len() as int].relations@[r].kind));
}

/// Relations of the other kinds (references, summaries, support, causes,
/// contradictions, derivations, continuations, branches, plain relatedness)
/// hide nothing: appending a thought that has only those leaves the
/// invalidated set as it was.
pub proof fn lemma_other_relations_hide_nothing(thoughts: Seq<Thought>, t: Thought, id: u128)
    requires
        forall|r: int| 0 <= r < t.relations@.len() ==> !((#[trigger] t.relations@[r]).kind is Supersedes
            || t.relations@[r].kind is Corrects || t.relations@[r].kind is Invalidates),
    ensures
        invalidated_by_chain(thoughts.push(t), id) == invalidated_by_chain(thoughts, id),
{
    lemma_append_invalidation(thoughts, t, id);
    if thought_invalidates(t, id) {
        let r = choose|r: int| 0 <= r < t.relations@.len() && invalidating((#[trigger] t.relations@[r]).kind)
            && t.relations@[r].target_id == id;
        assert(!(t.relations@[r].kind is Supersedes || t.relations@[r].kind is Corrects || t.relations@[r].kind is Invalidates));
    }
}

/// Nothing is ever taken out of the invalidated set: after an append, a
/// thought is invalidated exactly when it was before or the new thought
/// supersedes, corrects or invalidates it.
pub proof fn lemma_append_invalidation(thoughts: Seq<Thought>, t: Thought, id: u128)
    ensures
        invalidated_by_chain(thoughts.push(t), id) == (invalidated_by_chain(thoughts, id) || thought_invalidates(t, id)),
{
    let s = thoughts.push(t);
    if invalidated_by_chain(thoughts, id) {
        let (i, r) = choose|i: int, r: int|
            0 <= i < thoughts.len() && 0 <= r < thoughts[i].relations@.len() && invalidating(
                (#[trigger] thoughts[i].relations@[r]).kind,
            ) && thoughts[i].relations@[r].target_id == id;
        assert(s[i] == thoughts[i]);
        assert(invalidating(s[i].relations@[r].kind) && s[i].relations@[r].target_id == id);
    }
    if thought_invalidates(t, id) {
        let r = choose|r: int| 0 <= r < t.relations@.len() && invalidating((#[trigger] t.relations@[r]).kind) && t.relations@[r].target_id == id;
        let last = thoughts.len() as int;
        assert(s[last] == t);
        assert(invalidating(s[last].relations@[r].kind) && s[last].relations@[r].target_id == id);
    }
    if invalidated_by_chain(s, id) {
        let (i, r) = choose|i: int, r: int|
            0 <= i < s.len() && 0 <= r < s[i].relations@.len() && invalidating(
                (#[trigger] s[i].relations@[r]).kind,
            ) && s[i].relations@[r].target_id == id;
        if i < thoughts.len() {
            assert(s[i] == thoughts[i]);
            assert(invalidating(thoughts[i].relations@[r].kind));
        } else {
            assert(s[i] == t);
            assert(invalidating(t.relations@[r].kind));
        }
    }
}

/// Appending a thought that sits at the end, links to the head and carries
/// the hash of its contents keeps a valid chain valid.
pub proof fn lemma_append_preserves_integrity(thoughts: Seq<Thought>, t: Thought)
    requires
        chain_valid(thoughts),
        t.index == thoughts.len(),
        t.prev_hash@ == (if thoughts.len() == 0 { Seq::<char>::empty() } else { thoughts.last().hash@ }),
        t.hash@ == thought_hash(t.hash_body@, t.prev_hash@),
    ensures
        chain_valid(thoughts.push(t)),
{
    let s = thoughts.push(t);
    assert forall|i: int| 0 <= i < s.len() implies #[trigger] link_ok(s, i) by {
        if i < thoughts.len() {
            assert(link_ok(thoughts, i));
            if i > 0 {
                assert(s[i - 1] == thoughts[i - 1]);
            }
        }
    }
}

/// A valid chain stays valid when cut at any length: every prefix of a
/// valid chain is a valid chain.
pub proof fn lemma_prefix_valid(thoughts: Seq<Thought>, n: int)
    requires
        chain_valid(thoughts),
        0 <= n <= thoughts.len(),
    ensures
        chain_valid(thoughts.subrange(0, n)),
{
    let s = thoughts.subrange(0, n);
    assert forall|i: int| 0 <= i < s.len() implies #[trigger] link_ok(s, i) by {
        assert(link_ok(thoughts, i));
    }
}

/// Whether every thought links to its predecessor's hash and carries the
/// hash of its own contents.
pub open spec fn relinked(thoughts: Seq<Thought>) -> bool {
    forall|j: int|
        0 <= j < thoughts.len() ==> {
            &&& (#[trigger] thoughts[j]).prev_hash@ == expected_prev_hash(thoughts, j)
            &&& thoughts[j].hash@ == thought_hash(thoughts[j].hash_body@, thoughts[j].prev_hash@)
        }
}

/// Recomputes every link of a list of thoughts from the first on: each
/// takes the hash of its predecessor as previous hash and the hash of its
/// own contents; every other field is kept. Thoughts that index themselves
/// by position then form a valid chain.
pub fn rebuild_hash_chain(thoughts: Vec<Thought>) -> (r: Vec<Thought>)
    ensures
        r@.len() == thoughts@.len(),
        forall|i: int|
            0 <= i < r@.len() ==> (#[trigger] r@[i]) == (Thought { prev_hash: r@[i].prev_hash, hash: r@[i].hash, ..thoughts@[i] }),
        relinked(r@),
        (forall|i: int| 0 <= i < thoughts@.len() ==> (#[trigger] thoughts@[i]).index == i) ==> chain_valid(r@),
{
    let n = thoughts.len();
    let mut prev = String::new();
    let mut done: Vec<Thought> = Vec::new();
    let mut rest = thoughts;
    let ghost orig = rest@;
    let mut i: usize = 0;
    while i < n
        invariant
            n == orig.len(),
            i <= n,
            rest@ == orig.subrange(i as int, n as int),
            done@.len() == i,
            prev@ == (if i == 0 { Seq::<char>::empty() } else { done@[i - 1].hash@ }),
            forall|j: int|
                0 <= j < i ==> (#[trigger] done@[j]) == (Thought {
                    prev_hash: done@[j].prev_hash,
                    hash: done@[j].hash,
                    ..orig[j]
                }),
            relinked(done@),
        decreases n - i,
    {
        let mut t = rest.remove(0);
        proof {
            assert(t == orig[i as int]);
        }
        let h = compute_thought_hash(t.hash_body.as_slice(), prev.as_str());
        t.prev_hash = prev;
        t.hash = h;
        prev = t.hash.clone();
        let ghost d0 = done@;
        done.push(t);
        proof {
            assert(rest@ =~= orig.subrange(i + 1, n as int));
            assert forall|j: int| 0 <= j < i + 1 implies {
                &&& (#[trigger] done@[j]).prev_hash@ == expected_prev_hash(done@, j)
                &&& done@[j].hash@ == thought_hash(done@[j].hash_body@, done@[j].prev_hash@)
            } by {
                if j < i {
                    assert(done@[j] == d0[j]);
                    if j > 0 {
                        assert(done@[j - 1] == d0[j - 1]);
                    }
                }
            }
        }
        i = i + 1;
    }
    proof {
        if forall|j: int| 0 <= j < orig.len() ==> (#[trigger] orig[j]).index == j {
            assert forall|j: int| 0 <= j < done@.len() implies #[trigger] link_ok(done@, j) by {
                assert(orig[j].index == j);
            }
        }
    }
    done
}

/// Whether a list of thoughts read back thought by thought must be relinked:
/// it starts with a thought of the current schema and some thought lacks a
/// hash or a previous hash.
pub open spec fn needs_relinking(thoughts: Seq<Thought>) -> bool {
    &&& thoughts.len() > 0
    &&& thoughts[0].schema_version == MENTISDB_CURRENT_VERSION
    &&& exists|i: int| 0 <= i < thoughts.len() && ((#[trigger] thoughts[i]).hash@.len() == 0 || thoughts[i].prev_hash@.len() == 0)
}

/// Relinks thoughts read back one by one from older schemas when
/// [`needs_relinking`] says so, and returns them unchanged otherwise.
pub fn relink_migrated_thoughts(thoughts: Vec<Thought>) -> (r: Vec<Thought>)
    ensures
        !needs_relinking(thoughts@) ==> r@ == thoughts@,
        needs_relinking(thoughts@) ==> {
            &&& r@.len() == thoughts@.len()
            &&& forall|i: int| 0 <= i < r@.len() ==> (#[trigger] r@[i]) == (Thought { prev_hash: r@[i].prev_hash, hash: r@[i].hash, ..thoughts@[i] })
            &&& relinked(r@)
        },
{
    if thoughts.len() == 0 || thoughts[0].schema_version != MENTISDB_CURRENT_VERSION {
        return thoughts;
    }
    let mut i: usize = 0;
    let mut missing = false;
    while i < thoughts.len()
        invariant
            i <= thoughts@.len(),
            missing == exists|j: int| 0 <= j < i && ((#[trigger] thoughts@[j]).hash@.len() == 0 || thoughts@[j].prev_hash@.len() == 0),
        decreases thoughts@.len() - i,
    {
        if thoughts[i].hash.unicode_len() == 0 || thoughts[i].prev_hash.unicode_len() == 0 {
            missing = true;
        }
        i = i + 1;
    }
    if missing {
        rebuild_hash_chain(thoughts)
    } else {
        thoughts
    }
}

/// Where a traversal or lookup starts.
#[derive(Debug, Clone, PartialEq, Eq)]
pub enum ThoughtTraversalAnchor {
    /// The thought with this id.
    Id(u128),
    /// The thought with this hash.
    Hash(String),
    /// The thought at this index.
    Index(u64),
    /// The first thought.
    Genesis,
    /// The last thought.
    Head,
}

/// The in-memory state of one chain: its thoughts in append order, the
/// registries derived from them and the ids hidden by later corrections.
pub struct MentisDb {
    pub(crate) thoughts: Vec<Thought>,
    pub(crate) agent_registry: AgentRegistry,
    pub(crate) entity_type_registry: EntityTypeRegistry,
    pub(crate) invalidated_thought_ids: Vec<u128>,
    pub(crate) query_indexes: QueryIndexes,
}

impl MentisDb {
    /// The state's invariant: sorted registries whose agent counters stay
    /// within the number of thoughts and whose entity-type counters exceed it
    /// by at most one (a type registered ahead of its first thought), an
    /// invalidation set that holds exactly the targets of invalidating
    /// relations, and indexes that describe the thoughts.
    pub closed spec fn wf(&self) -> bool {
        &&& self.agent_registry.wf()
        &&& self.entity_type_registry.wf()
        &&& self.spec_thoughts().len() < u64::MAX - 1
        &&& forall|i: int|
            0 <= i < self.agent_registry.agents@.len() ==> (#[trigger] self.agent_registry.agents@[i]).thought_count
                <= self.spec_thoughts().len()
        &&& forall|i: int|
            0 <= i < self.entity_type_registry.entity_types@.len() ==> (
            #[trigger] self.entity_type_registry.entity_types@[i]).thought_count <= self.spec_thoughts().len() + 1
        &&& forall|id: u128| #[trigger] self.invalidated_thought_ids@.contains(id) <==> invalidated_by_chain(self.spec_thoughts(), id)
        &&& self.query_indexes.describes(self.thoughts@)
        &&& indexed_by_position(self.thoughts@, self.thoughts@.len() as int)
    }

    /// The thoughts, in append order.
    pub closed spec fn spec_thoughts(&self) -> Seq<Thought> {
        self.thoughts@
    }

    /// The agent registry.
    pub closed spec fn spec_agents(&self) -> AgentRegistry {
        self.agent_registry
    }

    /// The entity type registry.
    pub closed spec fn spec_entity_types(&self) -> EntityTypeRegistry {
        self.entity_type_registry
    }

    /// How many keys each query index holds: agent id, thought type, role,
    /// tag, concept.
    pub closed spec fn spec_index_keys(&self) -> [nat; 5] {
        [
            self.query_indexes.by_agent_id.entries@.len(),
            self.query_indexes.by_thought_type.entries@.len(),
            self.query_indexes.by_role.entries@.len(),
            self.query_indexes.by_tag.entries@.len(),
            self.query_indexes.by_concept.entries@.len(),
        ]
    }

    /// The ids hidden from default retrieval.
    pub closed spec fn spec_invalidated(&self) -> Seq<u128> {
        self.invalidated_thought_ids@
    }

    /// What the invariant gives to code outside this module.
    pub proof fn lemma_wf(&self)
        requires
            self.wf(),
        ensures
            self.spec_agents().wf(),
            self.spec_entity_types().wf(),
            self.spec_thoughts().len() < u64::MAX - 1,
            forall|i: int|
                0 <= i < self.spec_agents().agents@.len() ==> (#[trigger] self.spec_agents().agents@[i]).thought_count
                    <= self.spec_thoughts().len(),
            forall|id: u128| #[trigger] self.spec_invalidated().contains(id) <==> invalidated_by_chain(self.spec_thoughts(), id),
            forall|i: int| 0 <= i < self.spec_thoughts().len() ==> (#[trigger] self.spec_thoughts()[i]).index == i,
    {
    }

    /// The invariant in terms of the fields, for the rest of this crate.
    pub(crate) proof fn lemma_fields(&self)
        requires
            self.wf(),
        ensures
            self.thoughts@ == self.spec_thoughts(),
            self.agent_registry == self.spec_agents(),
            self.agent_registry.wf(),
            self.query_indexes.describes(self.spec_thoughts()),
            self.spec_thoughts().len() < u64::MAX - 1,
    {
    }

    /// The registry bounds of the invariant, in terms of the fields.
    pub(crate) proof fn lemma_registry_bounds(&self)
        requires
            self.wf(),
        ensures
            self.agent_registry == self.spec_agents(),
            self.entity_type_registry == self.spec_entity_types(),
            self.agent_registry.wf(),
            self.entity_type_registry.wf(),
            self.agent_registry.counts_at_most(self.thoughts@.len() as int),
            self.entity_type_registry.counts_at_most(self.thoughts@.len() + 1int),
    {
    }

    /// Registries replaced by well-formed ones within the bounds keep the
    /// invariant.
    pub(crate) proof fn lemma_registries_replaced(before: &MentisDb, after: &MentisDb)
        requires
            before.wf(),
            after.thoughts == before.thoughts,
            after.invalidated_thought_ids == before.invalidated_thought_ids,
            after.query_indexes == before.query_indexes,
            after.agent_registry.wf(),
            after.entity_type_registry.wf(),
            after.agent_registry.counts_at_most(before.thoughts@.len() as int),
            after.entity_type_registry.counts_at_most(before.thoughts@.len() + 1int),
        ensures
            after.wf(),
            after.spec_thoughts() == before.spec_thoughts(),
            after.spec_invalidated() == before.spec_invalidated(),
            after.spec_agents() == after.agent_registry,
            after.spec_entity_types() == after.entity_type_registry,
    {
    }

    /// The hash of the last thought, or the empty string for an empty chain.
    pub closed spec fn head_hash_spec(&self) -> Seq<char> {
        if self.spec_thoughts().len() == 0 {
            Seq::empty()
        } else {
            self.spec_thoughts().last().hash@
        }
    }

    /// An empty chain.
    pub fn new() -> (db: MentisDb)
        ensures
            db.wf(),
            db.spec_thoughts().len() == 0,
            db.spec_agents().agents@.len() == 0,
            db.spec_entity_types().entity_types@.len() == 0,
            db.spec_invalidated().len() == 0,
            db.spec_index_keys() == [0nat, 0nat, 0nat, 0nat, 0nat],
    {
        MentisDb {
            thoughts: Vec::new(),
            agent_registry: AgentRegistry::new(),
            entity_type_registry: EntityTypeRegistry::new(),
            invalidated_thought_ids: Vec::new(),
            query_indexes: QueryIndexes::new(),
        }
    }

    /// The thoughts, in append order.
    pub fn thoughts(&self) -> (r: &[Thought])
        ensures
            r@ == self.spec_thoughts(),
    {
        self.thoughts.as_slice()
    }

    /// The agent registry.
    pub fn agent_registry(&self) -> (r: &AgentRegistry)
        ensures
            *r == self.spec_agents(),
    {
        &self.agent_registry
    }

    /// The entity type registry.
    pub fn entity_type_registry(&self) -> (r: &EntityTypeRegistry)
        ensures
            *r == self.spec_entity_types(),
    {
        &self.entity_type_registry
    }

    /// The ids of thoughts hidden from default retrieval.
    pub fn invalidated_thought_ids(&self) -> (r: &[u128])
        ensures
            r@ == self.spec_invalidated(),
    {
        self.invalidated_thought_ids.as_slice()
    }

    /// Whether every thought sits at its position, links to its predecessor
    /// and carries the hash of its own contents.
    pub fn verify_integrity(&self) -> (ok: bool)
        ensures
            ok == chain_valid(self.spec_thoughts()),
            ok <==> forall|i: int| 0 <= i < self.spec_thoughts().len() ==> {
                &&& (#[trigger] self.spec_thoughts()[i]).index == i
                &&& self.spec_thoughts()[i].prev_hash@ == (if i == 0 { Seq::empty() } else { self.spec_thoughts()[i - 1].hash@ })
                &&& self.spec_thoughts()[i].hash@ == thought_hash(self.spec_thoughts()[i].hash_body@, self.spec_thoughts()[i].prev_hash@)
            },
    {
        proof {
            let th = self.spec_thoughts();
            assert forall|i: int| 0 <= i < th.len() implies (#[trigger] link_ok(th, i) <==> {
                &&& th[i].index == i
                &&& th[i].prev_hash@ == (if i == 0 { Seq::empty() } else { th[i - 1].hash@ })
                &&& th[i].hash@ == thought_hash(th[i].hash_body@, th[i].prev_hash@)
            }) by {}
            if chain_valid(th) {
                assert forall|i: int| 0 <= i < th.len() implies {
                    &&& (#[trigger] th[i]).index == i
                    &&& th[i].prev_hash@ == (if i == 0 { Seq::empty() } else { th[i - 1].hash@ })
                    &&& th[i].hash@ == thought_hash(th[i].hash_body@, th[i].prev_hash@)
                } by {
                    assert(link_ok(th, i));
                }
            }
        }
        let mut i: usize = 0;
        while i < self.thoughts.len()
            invariant
                i <= self.spec_thoughts().len(),
                forall|j: int| 0 <= j < i ==> #[trigger] link_ok(self.spec_thoughts(), j),
            decreases self.spec_thoughts().len() - i,
        {
            let t = &self.thoughts[i];
            if t.index != i as u64 {
                assert(!link_ok(self.spec_thoughts(), i as int));
                return false;
            }
            let prev_ok = if i == 0 {
                t.prev_hash.unicode_len() == 0
            } else {
                str_eq(t.prev_hash.as_str(), self.thoughts[i - 1].hash.as_str())
            };
            if !prev_ok {
                proof {
                    if i == 0 {
                        if t.prev_hash@ == Seq::<char>::empty() {
                        }
                    }
                }
                assert(!link_ok(self.spec_thoughts(), i as int));
                return false;
            }
            let h = compute_thought_hash(t.hash_body.as_slice(), t.prev_hash.as_str());
            if !str_eq(t.hash.as_str(), h.as_str()) {
                assert(!link_ok(self.spec_thoughts(), i as int));
                return false;
            }
            proof {
                if i == 0 {
                    assert(t.prev_hash@ =~= Seq::<char>::empty());
                }
            }
            assert(link_ok(self.spec_thoughts(), i as int));
            i = i + 1;
        }
        true
    }

    /// Whether the links are intact when thought `i` is given the hash
    /// `hashes[i]` computed by another algorithm: positions, previous-hash
    /// links and stored hashes must all agree.
    pub fn verify_links_with(&self, hashes: &[String]) -> (ok: bool)
        ensures
            ok == (hashes@.len() >= self.spec_thoughts().len() && forall|i: int|
                0 <= i < self.spec_thoughts().len() ==> #[trigger] link_with(self.spec_thoughts(), hashes@, i)),
    {
        if hashes.len() < self.thoughts.len() {
            return false;
        }
        let mut i: usize = 0;
        while i < self.thoughts.len()
            invariant
                i <= self.spec_thoughts().len(),
                hashes@.len() >= self.spec_thoughts().len(),
                forall|j: int| 0 <= j < i ==> #[trigger] link_with(self.spec_thoughts(), hashes@, j),
            decreases self.spec_thoughts().len() - i,
        {
            let t = &self.thoughts[i];
            let prev_ok = if i == 0 {
                t.prev_hash.unicode_len() == 0
            } else {
                str_eq(t.prev_hash.as_str(), self.thoughts[i - 1].hash.as_str())
            };
            if t.index != i as u64 {
                assert(!link_with(self.spec_thoughts(), hashes@, i as int));
                return false;
            }
            if !prev_ok {
                proof {
                    if i == 0 {
                        if t.prev_hash@ == Seq::<char>::empty() {
                        }
                    }
                }
                assert(!link_with(self.spec_thoughts(), hashes@, i as int));
                return false;
            }
            if !str_eq(t.hash.as_str(), hashes[i].as_str()) {
                assert(!link_with(self.spec_thoughts(), hashes@, i as int));
                return false;
            }
            proof {
                if i == 0 {
                    assert(t.prev_hash@ =~= Seq::<char>::empty());
                }
                assert(self.spec_thoughts()[i as int].index == i);
                assert(self.spec_thoughts()[i as int].prev_hash@ == expected_prev_hash(self.spec_thoughts(), i as int));
                assert(self.spec_thoughts()[i as int].hash@ == hashes@[i as int]@);
                assert(link_with(self.spec_thoughts(), hashes@, i as int));
            }
            i = i + 1;
        }
        true
    }

    /// Recomputes every link from the first thought on: each thought takes
    /// the hash of its predecessor as previous hash and the hash of its own
    /// contents. Every other field is kept.
    pub fn rebuild_hash_chain(&mut self)
        requires
            old(self).wf(),
        ensures
            final(self).wf(),
            final(self).spec_thoughts().len() == old(self).spec_thoughts().len(),
            final(self).spec_agents() == old(self).spec_agents(),
            final(self).spec_entity_types() == old(self).spec_entity_types(),
            forall|i: int|
                0 <= i < final(self).spec_thoughts().len() ==> (#[trigger] final(self).spec_thoughts()[i]) == (Thought {
                    prev_hash: final(self).spec_thoughts()[i].prev_hash,
                    hash: final(self).spec_thoughts()[i].hash,
                    ..old(self).spec_thoughts()[i]
                }),
            relinked(final(self).spec_thoughts()),
            (forall|i: int| 0 <= i < old(self).spec_thoughts().len() ==> (#[trigger] old(self).spec_thoughts()[i]).index == i)
                ==> chain_valid(final(self).spec_thoughts()),
    {
        let mut rest: Vec<Thought> = Vec::new();
        std::mem::swap(&mut rest, &mut self.thoughts);
        let ghost orig = rest@;
        assert(orig == old(self).spec_thoughts());
        let done = rebuild_hash_chain(rest);
        self.thoughts = done;
        proof {
            assert forall|j: int| 0 <= j < orig.len() implies crate::index::same_index_fields(#[trigger] orig[j], self.thoughts@[j]) by {
                assert(self.thoughts@[j] == (Thought { prev_hash: self.thoughts@[j].prev_hash, hash: self.thoughts@[j].hash, ..orig[j] }));
            }
            lemma_describes_same_fields(self.query_indexes, orig, self.thoughts@);
            assert forall|id: u128| #[trigger] self.invalidated_thought_ids@.contains(id) <==> invalidated_by_chain(self.spec_thoughts(), id) by {
                if invalidated_by_chain(self.spec_thoughts(), id) {
                    let (a, b) = choose|a: int, b: int|
                        0 <= a < self.spec_thoughts().len() && 0 <= b < self.spec_thoughts()[a].relations@.len() && invalidating(
                            (#[trigger] self.spec_thoughts()[a].relations@[b]).kind,
                        ) && self.spec_thoughts()[a].relations@[b].target_id == id;
                    assert(orig[a].relations@[b] == self.spec_thoughts()[a].relations@[b]);
                    assert(invalidated_by_chain(orig, id));
                }
                if invalidated_by_chain(orig, id) {
                    let (a, b) = choose|a: int, b: int|
                        0 <= a < orig.len() && 0 <= b < orig[a].relations@.len() && invalidating(
                            (#[trigger] orig[a].relations@[b]).kind,
                        ) && orig[a].relations@[b].target_id == id;
                    assert(orig[a].relations@[b] == self.spec_thoughts()[a].relations@[b]);
                    assert(invalidated_by_chain(self.spec_thoughts(), id));
                }
            }
        }
    }

    /// Whether the links of the chain hold when each thought's hash is
    /// compared with `hashes` (the hashes of an earlier algorithm).
    pub open spec fn links_hold_with(&self, hashes: Seq<String>) -> bool {
        hashes.len() >= self.spec_thoughts().len() && forall|i: int|
            0 <= i < self.spec_thoughts().len() ==> #[trigger] link_with(self.spec_thoughts(), hashes, i)
    }

    /// The integrity check made when a chain is opened. A valid chain is
    /// kept, and must be written back when its first thought has an older
    /// schema. A chain whose links hold under the hashes of the earlier
    /// algorithm, `legacy_hashes`, is relinked with the current hashes and
    /// must be written back. Any other chain is refused. Reports whether
    /// the chain must be written back.
    pub fn check_on_open(&mut self, legacy_hashes: &[String]) -> (r: Result<bool, ChainError>)
        requires
            old(self).wf(),
        ensures
            final(self).wf(),
            chain_valid(final(self).spec_thoughts()) || r is Err,
            chain_valid(old(self).spec_thoughts()) ==> *final(self) == *old(self) && r == Ok::<bool, ChainError>(
                old(self).spec_thoughts().len() > 0 && old(self).spec_thoughts()[0].schema_version < MENTISDB_CURRENT_VERSION,
            ),
            !chain_valid(old(self).spec_thoughts()) && old(self).links_hold_with(legacy_hashes@) ==> {
                &&& r == Ok::<bool, ChainError>(true)
                &&& final(self).spec_thoughts().len() == old(self).spec_thoughts().len()
                &&& forall|i: int| 0 <= i < final(self).spec_thoughts().len() ==> (#[trigger] final(self).spec_thoughts()[i]) == (Thought {
                    prev_hash: final(self).spec_thoughts()[i].prev_hash,
                    hash: final(self).spec_thoughts()[i].hash,
                    ..old(self).spec_thoughts()[i]
                })
            },
            !chain_valid(old(self).spec_thoughts()) && !old(self).links_hold_with(legacy_hashes@) ==> *final(self) == *old(self),
            !chain_valid(old(self).spec_thoughts()) && !old(self).links_hold_with(legacy_hashes@) ==> (r matches Err(
                ChainError::InvalidData(m),
            ) && m@ == "Thought chain integrity verification failed"@),
    {
        if self.verify_integrity() {
            return Ok(self.thoughts.len() > 0 && self.thoughts[0].schema_version < MENTISDB_CURRENT_VERSION);
        }
        if self.verify_links_with(legacy_hashes) {
            let ghost before = self.spec_thoughts();
            self.rebuild_hash_chain();
            proof {
                assert forall|i: int| 0 <= i < before.len() implies (#[trigger] before[i]).index == i by {
                    assert(link_with(before, legacy_hashes@, i));
                }
            }
            return Ok(true);
        }
        Err(ChainError::InvalidData(String::from_str("Thought chain integrity verification failed")))
    }

    /// The thought at `index`, if any.
    pub fn get_thought_by_index(&self, index: u64) -> (r: Option<&Thought>)
        ensures
            index < self.spec_thoughts().len() ==> r == Some(&self.spec_thoughts()[index as int]),
            index >= self.spec_thoughts().len() ==> r is None,
    {
        if index < self.thoughts.len() as u64 {
            Some(&self.thoughts[index as usize])
        } else {
            None
        }
    }

    /// The first thought, if any.
    pub fn genesis_thought(&self) -> (r: Option<&Thought>)
        ensures
            self.spec_thoughts().len() > 0 ==> r == Some(&self.spec_thoughts()[0]),
            self.spec_thoughts().len() == 0 ==> r is None,
    {
        if self.thoughts.len() > 0 {
            Some(&self.thoughts[0])
        } else {
            None
        }
    }

    /// The last thought, if any.
    pub fn head_thought(&self) -> (r: Option<&Thought>)
        ensures
            self.spec_thoughts().len() > 0 ==> r == Some(&self.spec_thoughts().last()),
            self.spec_thoughts().len() == 0 ==> r is None,
    {
        if self.thoughts.len() > 0 {
            Some(&self.thoughts[self.thoughts.len() - 1])
        } else {
            None
        }
    }

    /// The hash of the last thought, if any.
    pub fn head_hash(&self) -> (r: Option<&str>)
        ensures
            self.spec_thoughts().len() > 0 ==> (r matches Some(h) && h@ == self.spec_thoughts().last().hash@),
            self.spec_thoughts().len() == 0 ==> r is None,
    {
        if self.thoughts.len() > 0 {
            Some(self.thoughts[self.thoughts.len() - 1].hash.as_str())
        } else {
            None
        }
    }

    /// Position of the last thought with this id (later duplicates shadow
    /// earlier ones, as in an id-to-position map filled in append order).
    pub fn position_of_id(&self, id: u128) -> (r: Option<usize>)
        ensures
            r matches Some(p) ==> p < self.spec_thoughts().len() && self.spec_thoughts()[p as int].id == id && forall|
                j: int,
            | p < j < self.spec_thoughts().len() ==> (#[trigger] self.spec_thoughts()[j]).id != id,
            r is None ==> forall|j: int| 0 <= j < self.spec_thoughts().len() ==> (#[trigger] self.spec_thoughts()[j]).id != id,
    {
        let mut i: usize = self.thoughts.len();
        while i > 0
            invariant
                i <= self.spec_thoughts().len(),
                forall|j: int| i <= j < self.spec_thoughts().len() ==> (#[trigger] self.spec_thoughts()[j]).id != id,
            decreases i,
        {
            i = i - 1;
            if self.thoughts[i].id == id {
                return Some(i);
            }
        }
        None
    }

    /// Position of the last thought with this hash.
    pub fn position_of_hash(&self, hash: &str) -> (r: Option<usize>)
        ensures
            r matches Some(p) ==> p < self.spec_thoughts().len() && self.spec_thoughts()[p as int].hash@ == hash@ && forall|
                j: int,
            | p < j < self.spec_thoughts().len() ==> (#[trigger] self.spec_thoughts()[j]).hash@ != hash@,
            r is None ==> forall|j: int| 0 <= j < self.spec_thoughts().len() ==> (#[trigger] self.spec_thoughts()[j]).hash@ != hash@,
    {
        let mut i: usize = self.thoughts.len();
        while i > 0
            invariant
                i <= self.spec_thoughts().len(),
                forall|j: int| i <= j < self.spec_thoughts().len() ==> (#[trigger] self.spec_thoughts()[j]).hash@ != hash@,
            decreases i,
        {
            i = i - 1;
            if str_eq(self.thoughts[i].hash.as_str(), hash) {
                return Some(i);
            }
        }
        None
    }

    /// The thought with this id, if any.
    pub fn get_thought_by_id(&self, id: u128) -> (r: Option<&Thought>)
        ensures
            r matches Some(t) ==> exists|p: int| self.anchor_designates(ThoughtTraversalAnchor::Id(id), p) && self.spec_thoughts()[p] == *t,
            r is None ==> forall|j: int| 0 <= j < self.spec_thoughts().len() ==> (#[trigger] self.spec_thoughts()[j]).id != id,
    {
        match self.position_of_id(id) {
            Some(p) => Some(&self.thoughts[p]),
            None => None,
        }
    }

    /// The thought with this hash, if any.
    pub fn get_thought_by_hash(&self, hash: &str) -> (r: Option<&Thought>)
        ensures
            r matches Some(t) ==> exists|p: int| 0 <= p < self.spec_thoughts().len() && self.spec_thoughts()[p] == *t && t.hash@ == hash@
                && forall|j: int| p < j < self.spec_thoughts().len() ==> (#[trigger] self.spec_thoughts()[j]).hash@ != hash@,
            r is None ==> forall|j: int| 0 <= j < self.spec_thoughts().len() ==> (#[trigger] self.spec_thoughts()[j]).hash@ != hash@,
    {
        match self.position_of_hash(hash) {
            Some(p) => Some(&self.thoughts[p]),
            None => None,
        }
    }

    /// Whether position `p` is the one `anchor` designates: the index it
    /// names, the first or last position, or the last thought carrying the
    /// id or hash it names.
    pub open spec fn anchor_designates(&self, anchor: ThoughtTraversalAnchor, p: int) -> bool {
        &&& 0 <= p < self.spec_thoughts().len()
        &&& match anchor {
            ThoughtTraversalAnchor::Index(i) => p == i,
            ThoughtTraversalAnchor::Genesis => p == 0,
            ThoughtTraversalAnchor::Head => p == self.spec_thoughts().len() - 1,
            ThoughtTraversalAnchor::Id(id) => self.spec_thoughts()[p].id == id && forall|j: int|
                p < j < self.spec_thoughts().len() ==> (#[trigger] self.spec_thoughts()[j]).id != id,
            ThoughtTraversalAnchor::Hash(h) => self.spec_thoughts()[p].hash@ == h@ && forall|j: int|
                p < j < self.spec_thoughts().len() ==> (#[trigger] self.spec_thoughts()[j]).hash@ != h@,
        }
    }

    /// The position an anchor designates, if it designates one.
    pub fn locate_thought_position(&self, anchor: &ThoughtTraversalAnchor) -> (r: Option<usize>)
        ensures
            r matches Some(p) ==> self.anchor_designates(*anchor, p as int),
            r is None ==> forall|p: int| !self.anchor_designates(*anchor, p),
    {
        match anchor {
            ThoughtTraversalAnchor::Id(id) => {
                let r = self.position_of_id(*id);
                proof {
                    if r is None {
                        assert forall|p: int| !self.anchor_designates(*anchor, p) by {
                            if 0 <= p < self.spec_thoughts().len() {
                                assert(self.spec_thoughts()[p].id != *id);
                            }
                        }
                    }
                }
                r
            },
            ThoughtTraversalAnchor::Hash(h) => {
                let r = self.position_of_hash(h.as_str());
                proof {
                    if r is None {
                        assert forall|p: int| !self.anchor_designates(*anchor, p) by {
                            if 0 <= p < self.spec_thoughts().len() {
                                assert(self.spec_thoughts()[p].hash@ != h@);
                            }
                        }
                    }
                }
                r
            },
            ThoughtTraversalAnchor::Index(i) => {
                if *i < self.thoughts.len() as u64 {
                    Some(*i as usize)
                } else {
                    None
                }
            },
            ThoughtTraversalAnchor::Genesis => {
                if self.thoughts.len() > 0 {
                    Some(0)
                } else {
                    None
                }
            },
            ThoughtTraversalAnchor::Head => {
                if self.thoughts.len() > 0 {
                    Some(self.thoughts.len() - 1)
                } else {
                    None
                }
            },
        }
    }

    /// The thought an anchor designates, if any.
    pub fn get_thought(&self, anchor: &ThoughtTraversalAnchor) -> (r: Option<&Thought>)
        ensures
            r matches Some(t) ==> exists|p: int| self.anchor_designates(*anchor, p) && self.spec_thoughts()[p] == *t,
            r is None ==> forall|p: int| !self.anchor_designates(*anchor, p),
    {
        match self.locate_thought_position(anchor) {
            Some(p) => Some(&self.thoughts[p]),
            None => None,
        }
    }
}


/// The identity of a relation, as used to drop repeated edges.
pub type RelationKey = (ThoughtRelationKind, u128, Option<Seq<char>>, Option<Timestamp>, Option<Timestamp>);

/// The keys of a sequence of relations.
pub open spec fn relation_keys(rs: Seq<ThoughtRelation>) -> Seq<RelationKey> {
    rs.map_values(|r: ThoughtRelation| relation_key(r))
}

/// `keys` without later repeats of an earlier key.
pub open spec fn dedupe_keys(keys: Seq<RelationKey>) -> Seq<RelationKey>
    decreases keys.len(),
{
    if keys.len() == 0 {
        Seq::empty()
    } else {
        let prev = dedupe_keys(keys.drop_last());
        if prev.contains(keys.last()) {
            prev
        } else {
            prev.push(keys.last())
        }
    }
}

/// Removes later repeats of an earlier edge, keeping the first of each.
pub fn dedupe_relations(relations: Vec<ThoughtRelation>) -> (r: Vec<ThoughtRelation>)
    ensures
        relation_keys(r@) == dedupe_keys(relation_keys(relations@)),
{
    let mut r: Vec<ThoughtRelation> = Vec::new();
    let mut i: usize = 0;
    while i < relations.len()
        invariant
            i <= relations@.len(),
            relation_keys(r@) == dedupe_keys(relation_keys(relations@.subrange(0, i as int))),
        decreases relations@.len() - i,
    {
        let mut seen = false;
        let mut k: usize = 0;
        while k < r.len()
            invariant
                i < relations@.len(),
                k <= r@.len(),
                seen == exists|j: int| 0 <= j < k && relation_key(#[trigger] r@[j]) == relation_key(relations@[i as int]),
            decreases r@.len() - k,
        {
            if r[k].same_edge(&relations[i]) {
                seen = true;
            }
            k = k + 1;
        }
        proof {
            let ks = relation_keys(relations@.subrange(0, i + 1));
            assert(ks.drop_last() =~= relation_keys(relations@.subrange(0, i as int)));
            assert(ks.last() == relation_key(relations@[i as int]));
            let prev = relation_keys(r@);
            assert(seen == prev.contains(ks.last())) by {
                if seen {
                    let j = choose|j: int| 0 <= j < k && relation_key(#[trigger] r@[j]) == relation_key(relations@[i as int]);
                    assert(prev[j] == ks.last());
                }
                if prev.contains(ks.last()) {
                    let j = choose|j: int| 0 <= j < prev.len() && prev[j] == ks.last();
                    assert(relation_key(r@[j]) == relation_key(relations@[i as int]));
                }
            }
        }
        if !seen {
            let ghost before = r@;
            r.push(relations[i].copy());
            assert(relation_keys(r@) =~= relation_keys(before).push(relation_key(relations@[i as int])));
        }
        i = i + 1;
    }
    assert(relations@.subrange(0, relations@.len() as int) =~= relations@);
    r
}

/// The key of a relation stamped with `now` when it has no start instant.
pub open spec fn stamped(k: RelationKey, now: Timestamp) -> RelationKey {
    (k.0, k.1, k.2, Some(match k.3 { Some(t) => t, None => now }), k.4)
}

/// The reference edge that a positional reference to `target` becomes.
pub open spec fn reference_key(target: u128, now: Timestamp) -> RelationKey {
    (ThoughtRelationKind::References, target, None, Some(now), None)
}

/// The relations a new thought is committed with: the given relations, then
/// one reference edge per positional reference, every edge without a start
/// instant stamped with `now`, repeated edges dropped, and finally the
/// supersession edge found by duplicate detection, if any.
pub open spec fn prepared_relation_keys(
    thoughts: Seq<Thought>,
    given: Seq<ThoughtRelation>,
    refs: Seq<u64>,
    now: Timestamp,
    supersedes: Option<u128>,
) -> Seq<RelationKey> {
    let base = relation_keys(given) + refs.map_values(|r: u64| reference_key(thoughts[r as int].id, now));
    let d = dedupe_keys(base.map_values(|k: RelationKey| stamped(k, now)));
    match supersedes {
        Some(t) => d.push((ThoughtRelationKind::Supersedes, t, None, Some(now), None)),
        None => d,
    }
}

/// The first reference in `refs` that names no thought of a chain of `len`
/// thoughts.
pub open spec fn first_bad_ref(refs: Seq<u64>, len: nat) -> Option<int> {
    if exists|i: int| 0 <= i < refs.len() && refs[i] >= len {
        Some(choose|i: int| 0 <= i < refs.len() && refs[i] >= len && forall|j: int| 0 <= j < i ==> refs[j] < len)
    } else {
        None
    }
}

impl MentisDb {
    /// Checks that every positional reference names an existing thought;
    /// the first that does not is reported.
    pub fn validate_refs(&self, refs: &[u64]) -> (r: Result<(), ChainError>)
        ensures
            r is Ok <==> forall|i: int| 0 <= i < refs@.len() ==> refs@[i] < self.spec_thoughts().len(),
            r matches Err(ChainError::InvalidInput(m)) ==> (exists|i: int|
                0 <= i < refs@.len() && refs@[i] >= self.spec_thoughts().len() && (forall|j: int|
                    0 <= j < i ==> refs@[j] < self.spec_thoughts().len()) && m@ == "Thought reference "@
                    + decimal(refs@[i] as nat) + " does not exist"@),
            r is Err ==> r matches Err(ChainError::InvalidInput(_)),
    {
        let n = self.thoughts.len() as u64;
        let mut i: usize = 0;
        while i < refs.len()
            invariant
                n == self.spec_thoughts().len(),
                i <= refs@.len(),
                forall|j: int| 0 <= j < i ==> refs@[j] < n,
            decreases refs@.len() - i,
        {
            if refs[i] >= n {
                let num = u64_to_decimal(refs[i]);
                let m = concat_str("Thought reference ", num.as_str());
                return Err(ChainError::InvalidInput(concat_str(m.as_str(), " does not exist")));
            }
            i = i + 1;
        }
        Ok(())
    }

    /// Whether the thought with this id is hidden by a later correction,
    /// supersession or invalidation.
    pub fn is_invalidated(&self, thought_id: u128) -> (r: bool)
        requires
            self.wf(),
        ensures
            r == invalidated_by_chain(self.spec_thoughts(), thought_id),
    {
        let mut i: usize = 0;
        while i < self.invalidated_thought_ids.len()
            invariant
                self.wf(),
                i <= self.invalidated_thought_ids@.len(),
                forall|j: int| 0 <= j < i ==> self.invalidated_thought_ids@[j] != thought_id,
            decreases self.invalidated_thought_ids@.len() - i,
        {
            if self.invalidated_thought_ids[i] == thought_id {
                assert(self.invalidated_thought_ids@.contains(thought_id));
                return true;
            }
            i = i + 1;
        }
        assert(!self.invalidated_thought_ids@.contains(thought_id));
        false
    }

    /// Prepares the record of a new thought: checks the references, derives
    /// the relations, clamps the scores into `[0, 1]`, normalizes the labels
    /// and fills in position, id, instant and previous hash. The hash and the
    /// encoded body are left empty for [`MentisDb::seal_thought`] and the
    /// caller.
    pub fn prepare_append(
        &self,
        agent_id: &str,
        input: ThoughtInput,
        id: u128,
        now: Timestamp,
        timestamp: Timestamp,
        supersedes: Option<u128>,
    ) -> (r: Result<Thought, ChainError>)
        ensures
            r is Ok <==> forall|i: int| 0 <= i < input.refs@.len() ==> input.refs@[i] < self.spec_thoughts().len(),
            r is Err ==> r matches Err(ChainError::InvalidInput(_)),
            r matches Ok(t) ==> {
                &&& t.schema_version == MENTISDB_CURRENT_VERSION
                &&& t.id == id
                &&& t.index == self.spec_thoughts().len()
                &&& t.timestamp == timestamp
                &&& t.session_id == input.session_id
                &&& t.agent_id@ == agent_id@
                &&& opt_view(t.signing_key_id) == trimmed_non_empty(opt_view(input.signing_key_id))
                &&& t.thought_signature == input.thought_signature
                &&& t.thought_type == input.thought_type
                &&& t.role == input.role
                &&& t.content == input.content
                &&& t.confidence == match input.confidence {
                    Some(c) => Some(clamp_unit(c)),
                    None => None,
                }
                &&& t.importance == clamp_unit(input.importance)
                &&& views(t.tags@) == normalize_seq(views(input.tags@))
                &&& views(t.concepts@) == normalize_seq(views(input.concepts@))
                &&& t.refs == input.refs
                &&& relation_keys(t.relations@) == prepared_relation_keys(
                    self.spec_thoughts(),
                    input.relations@,
                    input.refs@,
                    now,
                    supersedes,
                )
                &&& opt_view(t.entity_type) == trimmed_non_empty(opt_view(input.entity_type))
                &&& t.source_episode == input.source_episode
                &&& t.prev_hash@ == self.head_hash_spec()
                &&& t.hash@.len() == 0
                &&& t.hash_body@.len() == 0
            },
    {
        match self.validate_refs(input.refs.as_slice()) {
            Ok(()) => {},
            Err(e) => return Err(e),
        }
        let ghost thoughts = self.spec_thoughts();
        let mut rels: Vec<ThoughtRelation> = Vec::new();
        let mut i: usize = 0;
        let ghost given = input.relations@;
        let ghost refs = input.refs@;
        let ghost base = relation_keys(given) + refs.map_values(|r: u64| reference_key(thoughts[r as int].id, now));
        while i < input.relations.len()
            invariant
                i <= given.len(),
                given == input.relations@,
                relation_keys(rels@) == relation_keys(given.subrange(0, i as int)).map_values(|k: RelationKey| stamped(k, now)),
            decreases given.len() - i,
        {
            let mut rel = input.relations[i].copy();
            if rel.valid_at.is_none() {
                rel.valid_at = Some(now);
            }
            let ghost before = rels@;
            rels.push(rel);
            proof {
                assert(relation_keys(given.subrange(0, i + 1)) =~= relation_keys(given.subrange(0, i as int)).push(relation_key(given[i as int])));
                assert(relation_keys(rels@) =~= relation_keys(before).push(relation_key(rel)));
                assert(relation_keys(given.subrange(0, i + 1)).map_values(|k: RelationKey| stamped(k, now)) =~= relation_keys(given.subrange(0, i as int)).map_values(|k: RelationKey| stamped(k, now)).push(stamped(relation_key(given[i as int]), now)));
            }
            i = i + 1;
        }
        assert(given.subrange(0, given.len() as int) =~= given);
        let mut k: usize = 0;
        let n_thoughts = self.thoughts.len();
        while k < input.refs.len()
            invariant
                n_thoughts == thoughts.len(),
                k <= refs.len(),
                refs == input.refs@,
                thoughts == self.spec_thoughts(),
                forall|j: int| 0 <= j < refs.len() ==> refs[j] < thoughts.len(),
                relation_keys(rels@) == relation_keys(given).map_values(|k: RelationKey| stamped(k, now)) + refs.subrange(0, k as int).map_values(|r: u64| reference_key(thoughts[r as int].id, now)),
            decreases refs.len() - k,
        {
            let pos = input.refs[k];
            assert(pos < n_thoughts);
            let target = self.thoughts[pos as usize].id;
            assert(target == thoughts[refs[k as int] as int].id);
            let rel = ThoughtRelation {
                kind: ThoughtRelationKind::References,
                target_id: target,
                chain_key: None,
                valid_at: Some(now),
                invalid_at: None,
            };
            let ghost before = rels@;
            rels.push(rel);
            proof {
                assert(relation_keys(rels@) =~= relation_keys(before).push(relation_key(rel)));
                assert(refs.subrange(0, k + 1).map_values(|r: u64| reference_key(thoughts[r as int].id, now)) =~= refs.subrange(0, k as int).map_values(|r: u64| reference_key(thoughts[r as int].id, now)).push(reference_key(thoughts[refs[k as int] as int].id, now)));
            }
            k = k + 1;
        }
        proof {
            assert(refs.subrange(0, refs.len() as int) =~= refs);
            let rk = refs.map_values(|r: u64| reference_key(thoughts[r as int].id, now));
            assert(rk.map_values(|k: RelationKey| stamped(k, now)) =~= rk);
            assert(base.map_values(|k: RelationKey| stamped(k, now)) =~= relation_keys(given).map_values(|k: RelationKey| stamped(k, now)) + rk.map_values(|k: RelationKey| stamped(k, now)));
        }
        let mut relations = dedupe_relations(rels);
        match supersedes {
            Some(target) => {
                let ghost before = relations@;
                relations.push(ThoughtRelation {
                    kind: ThoughtRelationKind::Supersedes,
                    target_id: target,
                    chain_key: None,
                    valid_at: Some(now),
                    invalid_at: None,
                });
                assert(relation_keys(relations@) =~= relation_keys(before).push((ThoughtRelationKind::Supersedes, target, None, Some(now), None)));
            },
            None => {},
        }
        let prev_hash = if self.thoughts.len() > 0 {
            self.thoughts[self.thoughts.len() - 1].hash.clone()
        } else {
            String::new()
        };
        let signing_key_id = match &input.signing_key_id {
            Some(k) => trim_optional(Some(k.as_str())),
            None => None,
        };
        let entity_type = match &input.entity_type {
            Some(e) => trim_optional(Some(e.as_str())),
            None => None,
        };
        let tags = normalize_strings(input.tags);
        let concepts = normalize_strings(input.concepts);
        Ok(Thought {
            schema_version: MENTISDB_CURRENT_VERSION,
            id,
            index: self.thoughts.len() as u64,
            timestamp,
            session_id: input.session_id,
            agent_id: String::from_str(agent_id),
            signing_key_id,
            thought_signature: input.thought_signature,
            thought_type: input.thought_type,
            role: input.role,
            content: input.content,
            confidence: match input.confidence {
                Some(c) => Some(c.clamped()),
                None => None,
            },
            importance: input.importance.clamped(),
            tags,
            concepts,
            refs: input.refs,
            relations,
            entity_type,
            source_episode: input.source_episode,
            prev_hash,
            hash: String::new(),
            hash_body: Vec::new(),
        })
    }

    /// Gives a prepared thought the hash of its encoded body and previous hash.
    /// The body (`hash_body`, the canonical encoding of the fields the hash
    /// covers) is made by the caller: which fields it covers is chosen where
    /// the thought is serialized, not here.
    pub fn seal_thought(thought: Thought) -> (r: Thought)
        ensures
            r == (Thought { hash: r.hash, ..thought }),
            r.hash@ == thought_hash(thought.hash_body@, thought.prev_hash@),
    {
        let h = compute_thought_hash(thought.hash_body.as_slice(), thought.prev_hash.as_str());
        Thought { hash: h, ..thought }
    }

    /// Whether a sealed thought extends this chain: it sits at the next
    /// position, links to the head and carries the hash of its contents.
    pub open spec fn extends(&self, t: Thought) -> bool {
        &&& t.index == self.spec_thoughts().len()
        &&& t.prev_hash@ == self.head_hash_spec()
        &&& t.hash@ == thought_hash(t.hash_body@, t.prev_hash@)
    }

    /// Commits a sealed thought: it must extend the chain. The agent and
    /// entity type registries observe it and its invalidating relations
    /// hide their targets. Reports whether a new agent was registered.
    pub fn commit_thought(
        &mut self,
        thought: Thought,
        agent_name: Option<&str>,
        agent_owner: Option<&str>,
    ) -> (r: Result<bool, ChainError>)
        requires
            old(self).wf(),
        ensures
            final(self).wf(),
            r is Ok <==> (old(self).extends(thought) && old(self).spec_thoughts().len() + 2 < u64::MAX - 1),
            r is Err ==> *final(self) == *old(self),
            r matches Ok(added) ==> {
                &&& final(self).spec_thoughts() == old(self).spec_thoughts().push(thought)
                &&& added == !old(self).spec_agents().has(thought.agent_id@)
                &&& forall|k: Seq<char>| final(self).spec_agents().has(k) <==> (old(self).spec_agents().has(k) || k == thought.agent_id@)
                &&& forall|k: Seq<char>| final(self).spec_entity_types().has(k) <==> (old(self).spec_entity_types().has(k) || opt_view(thought.entity_type) == Some(k))
            },
            chain_valid(old(self).spec_thoughts()) ==> chain_valid(final(self).spec_thoughts()),
    {
        if self.thoughts.len() as u64 >= u64::MAX - 3 {
            return Err(ChainError::InvalidInput(String::from_str("the chain holds the largest number of thoughts it can")));
        }
        if thought.index != self.thoughts.len() as u64 {
            return Err(ChainError::InvalidData(String::from_str("thought does not sit at the end of the chain")));
        }
        let prev_ok = if self.thoughts.len() > 0 {
            str_eq(thought.prev_hash.as_str(), self.thoughts[self.thoughts.len() - 1].hash.as_str())
        } else {
            thought.prev_hash.unicode_len() == 0
        };
        if !prev_ok {
            proof {
                if self.thoughts@.len() == 0 {
                    if thought.prev_hash@ == Seq::<char>::empty() {
                    }
                }
            }
            return Err(ChainError::InvalidData(String::from_str("thought does not link to the chain head")));
        }
        let h = compute_thought_hash(thought.hash_body.as_slice(), thought.prev_hash.as_str());
        if !str_eq(h.as_str(), thought.hash.as_str()) {
            return Err(ChainError::InvalidData(String::from_str("thought hash does not match its contents")));
        }
        proof {
            if self.thoughts@.len() == 0 {
                assert(thought.prev_hash@ =~= Seq::<char>::empty());
            }
            if chain_valid(self.thoughts@) {
                lemma_append_preserves_integrity(self.thoughts@, thought);
            }
        }
        let ghost old_thoughts = self.thoughts@;
        let ghost old_agents = self.agent_registry;
        let ghost old_entities = self.entity_type_registry;
        let ghost old_invalid = self.invalidated_thought_ids@;
        let index = thought.index;
        let timestamp = thought.timestamp;
        let added = match self.agent_registry.search(thought.agent_id.as_str()) {
            Ok(_) => false,
            Err(_) => true,
        };
        let display_name = trim_optional(agent_name);
        let owner = trim_optional(agent_owner);
        let dn: Option<&str> = match &display_name {
            Some(d) => Some(d.as_str()),
            None => None,
        };
        let ow: Option<&str> = match &owner {
            Some(o) => Some(o.as_str()),
            None => None,
        };
        proof {
            assert forall|i: int| 0 <= i < self.agent_registry.agents@.len() implies (#[trigger] self.agent_registry.agents@[i]).thought_count < u64::MAX by {}
            assert forall|i: int| 0 <= i < self.entity_type_registry.entity_types@.len() implies (#[trigger] self.entity_type_registry.entity_types@[i]).thought_count < u64::MAX by {}
        }
        proof {
            assert(self.agent_registry.counts_at_most(self.thoughts@.len() as int));
            assert(self.entity_type_registry.counts_at_most(self.thoughts@.len() + 1int));
        }
        self.agent_registry.observe(thought.agent_id.as_str(), dn, ow, index, timestamp);
        match &thought.entity_type {
            Some(e) => self.entity_type_registry.observe(e.as_str(), index, timestamp),
            None => {},
        }
        let mut invalid: Vec<u128> = Vec::new();
        std::mem::swap(&mut invalid, &mut self.invalidated_thought_ids);
        assert(invalid@ == old_invalid);
        let mut j: usize = 0;
        while j < thought.relations.len()
            invariant
                j <= thought.relations@.len(),
                forall|id: u128| #[trigger] invalid@.contains(id) <==> (old_invalid.contains(id) || exists|q: int| 0 <= q < j && invalidating((#[trigger] thought.relations@[q]).kind) && thought.relations@[q].target_id == id),
            decreases thought.relations@.len() - j,
        {
            let ghost inv0 = invalid@;
            let pushes = is_invalidating_relation_kind(thought.relations[j].kind);
            if pushes {
                invalid.push(thought.relations[j].target_id);
            }
            proof {
                assert forall|id: u128| #[trigger] invalid@.contains(id) <==> (old_invalid.contains(id) || exists|q: int| 0 <= q < j + 1 && invalidating((#[trigger] thought.relations@[q]).kind) && thought.relations@[q].target_id == id) by {
                    let here = invalidating(thought.relations@[j as int].kind) && thought.relations@[j as int].target_id == id;
                    assert(invalid@.contains(id) <==> (inv0.contains(id) || here)) by {
                        if pushes {
                            assert(invalid@ == inv0.push(thought.relations@[j as int].target_id));
                            if invalid@.contains(id) {
                                let m = choose|m: int| 0 <= m < invalid@.len() && invalid@[m] == id;
                                if m < inv0.len() {
                                    assert(inv0[m] == id);
                                }
                            }
                            if inv0.contains(id) {
                                let m = choose|m: int| 0 <= m < inv0.len() && inv0[m] == id;
                                assert(invalid@[m] == id);
                            }
                            if here {
                                assert(invalid@[inv0.len() as int] == id);
                            }
                        }
                    }
                    if exists|q: int| 0 <= q < j + 1 && invalidating((#[trigger] thought.relations@[q]).kind) && thought.relations@[q].target_id == id {
                        let q = choose|q: int| 0 <= q < j + 1 && invalidating((#[trigger] thought.relations@[q]).kind) && thought.relations@[q].target_id == id;
                        if q < j {
                            assert(exists|q2: int| 0 <= q2 < j && invalidating((#[trigger] thought.relations@[q2]).kind) && thought.relations@[q2].target_id == id);
                        }
                    }
                    if exists|q: int| 0 <= q < j && invalidating((#[trigger] thought.relations@[q]).kind) && thought.relations@[q].target_id == id {
                        let q = choose|q: int| 0 <= q < j && invalidating((#[trigger] thought.relations@[q]).kind) && thought.relations@[q].target_id == id;
                        assert(0 <= q < j + 1);
                    }
                }
            }
            j = j + 1;
        }
        let position = self.thoughts.len();
        self.query_indexes.observe(Ghost(self.thoughts@), position, &thought);
        self.thoughts.push(thought);
        self.invalidated_thought_ids = invalid;
        proof {
            assert(self.agent_registry.counts_at_most(self.thoughts@.len() as int));
            assert(self.entity_type_registry.counts_at_most(self.thoughts@.len() + 1int));
            let t = self.thoughts@.last();
            assert(self.thoughts@ == old_thoughts.push(t));
            assert forall|id: u128| #[trigger] self.invalidated_thought_ids@.contains(id) <==> invalidated_by_chain(self.thoughts@, id) by {
                if invalidated_by_chain(self.thoughts@, id) {
                    let (a, b) = choose|a: int, b: int|
                        0 <= a < self.thoughts@.len() && 0 <= b < self.thoughts@[a].relations@.len() && invalidating(
                            (#[trigger] self.thoughts@[a].relations@[b]).kind,
                        ) && self.thoughts@[a].relations@[b].target_id == id;
                    if a < old_thoughts.len() {
                        assert(old_thoughts[a] == self.thoughts@[a]);
                        assert(invalidated_by_chain(old_thoughts, id));
                    } else {
                        assert(self.thoughts@[a].relations@[b] == t.relations@[b]);
                    }
                }
                if old_invalid.contains(id) {
                    assert(invalidated_by_chain(old_thoughts, id));
                    let (a, b) = choose|a: int, b: int|
                        0 <= a < old_thoughts.len() && 0 <= b < old_thoughts[a].relations@.len() && invalidating(
                            (#[trigger] old_thoughts[a].relations@[b]).kind,
                        ) && old_thoughts[a].relations@[b].target_id == id;
                    assert(self.thoughts@[a] == old_thoughts[a]);
                    assert(invalidated_by_chain(self.thoughts@, id));
                }
                if exists|q: int| 0 <= q < t.relations@.len() && invalidating((#[trigger] t.relations@[q]).kind) && t.relations@[q].target_id == id {
                    let q = choose|q: int| 0 <= q < t.relations@.len() && invalidating((#[trigger] t.relations@[q]).kind) && t.relations@[q].target_id == id;
                    let a = self.thoughts@.len() - 1;
                    assert(self.thoughts@[a].relations@[q] == t.relations@[q]);
                    assert(invalidated_by_chain(self.thoughts@, id));
                }
            }
        }
        Ok(added)
    }
}

/// Whether thought `i` carries an invalidating relation to `id` that is in
/// force at `as_of`: the thought is not later than `as_of`, the relation has
/// started by then and has not ended by then.
pub open spec fn invalidates_as_of(t: Thought, id: u128, as_of: Timestamp) -> bool {
    &&& ts_le(t.timestamp, as_of)
    &&& exists|r: int|
        0 <= r < t.relations@.len() && {
            let rel = #[trigger] t.relations@[r];
            &&& rel.target_id == id
            &&& invalidating(rel.kind)
            &&& !(rel.valid_at matches Some(v) && ts_lt(as_of, v))
            &&& !(rel.invalid_at matches Some(e) && ts_le(e, as_of))
        }
}

/// Whether the thoughts at positions `0..n` index themselves by position.
pub open spec fn indexed_by_position(thoughts: Seq<Thought>, n: int) -> bool {
    forall|i: int| 0 <= i < n ==> (#[trigger] thoughts[i]).index == i
}

impl MentisDb {
    /// Rebuilds the in-memory state of a chain from its stored thoughts and
    /// the persisted registries. Every thought must carry its position as
    /// index; the first that does not is reported. Registry counters are
    /// recounted from the thoughts and the invalidation set is recomputed.
    pub fn load(
        thoughts: Vec<Thought>,
        agents: Vec<crate::registry::AgentRecord>,
        entity_types: Vec<crate::registry::EntityTypeRecord>,
    ) -> (r: Result<MentisDb, ChainError>)
        ensures
            r is Ok <==> (indexed_by_position(thoughts@, thoughts@.len() as int) && thoughts@.len() < u64::MAX - 1),
            r matches Err(ChainError::InvalidData(m)) ==> exists|p: int|
                0 <= p < thoughts@.len() && indexed_by_position(thoughts@, p) && thoughts@[p].index != p
                    && m@ == "Thought index "@ + decimal(thoughts@[p].index as nat) + " does not match position "@ + decimal(p as nat),
            r is Err ==> (r matches Err(ChainError::InvalidData(_))) || thoughts@.len() >= u64::MAX - 1,
            r matches Ok(db) ==> {
                &&& db.wf()
                &&& db.spec_thoughts() == thoughts@
                &&& forall|k: Seq<char>| db.spec_agents().has(k) <==> ((exists|i: int| 0 <= i < agents@.len() && (#[trigger] agents@[i]).agent_id@ == k)
                    || exists|i: int| 0 <= i < thoughts@.len() && (#[trigger] thoughts@[i]).agent_id@ == k)
                &&& forall|k: Seq<char>| #[trigger] db.spec_agents().count_of(k) == agent_thought_count(thoughts@, k)
                &&& forall|k: Seq<char>| #[trigger] db.spec_entity_types().count_of(k) == entity_thought_count(thoughts@, k)
                &&& forall|k: Seq<char>| db.spec_entity_types().has(k) <==> ((exists|i: int| 0 <= i < entity_types@.len() && (#[trigger] entity_types@[i]).entity_type@ == k)
                    || exists|i: int| 0 <= i < thoughts@.len() && opt_view((#[trigger] thoughts@[i]).entity_type) == Some(k))
            },
    {
        if thoughts.len() as u64 >= u64::MAX - 1 {
            return Err(ChainError::Unsupported(String::from_str("the chain holds more thoughts than can be indexed")));
        }
        let ghost agents_in = agents@;
        let ghost entities_in = entity_types@;
        let mut agent_registry = crate::registry::AgentRegistry::from_records(agents);
        let mut entity_type_registry = crate::registry::EntityTypeRegistry::from_records(entity_types);
        let mut invalid: Vec<u128> = Vec::new();
        let mut p: usize = 0;
        while p < thoughts.len()
            invariant
                thoughts@.len() < u64::MAX - 1,
                p <= thoughts@.len(),
                indexed_by_position(thoughts@, p as int),
                agent_registry.wf(),
                entity_type_registry.wf(),
                agent_registry.counts_at_most(p as int),
                entity_type_registry.counts_at_most(p as int),
                forall|k: Seq<char>| #[trigger] agent_registry.count_of(k) == agent_thought_count(thoughts@.take(p as int), k),
                forall|k: Seq<char>| #[trigger] entity_type_registry.count_of(k) == entity_thought_count(thoughts@.take(p as int), k),
                forall|k: Seq<char>| agent_registry.has(k) <==> ((exists|i: int| 0 <= i < agents_in.len() && (#[trigger] agents_in[i]).agent_id@ == k)
                    || exists|i: int| 0 <= i < p && (#[trigger] thoughts@[i]).agent_id@ == k),
                forall|k: Seq<char>| entity_type_registry.has(k) <==> ((exists|i: int| 0 <= i < entities_in.len() && (#[trigger] entities_in[i]).entity_type@ == k)
                    || exists|i: int| 0 <= i < p && opt_view((#[trigger] thoughts@[i]).entity_type) == Some(k)),
                forall|id: u128| #[trigger] invalid@.contains(id) <==> invalidated_by_chain(thoughts@.subrange(0, p as int), id),
            decreases thoughts@.len() - p,
        {
            let t = &thoughts[p];
            if t.index != p as u64 {
                let a = u64_to_decimal(t.index);
                let b = u64_to_decimal(p as u64);
                let m1 = concat_str("Thought index ", a.as_str());
                let m2 = concat_str(m1.as_str(), " does not match position ");
                return Err(ChainError::InvalidData(concat_str(m2.as_str(), b.as_str())));
            }
            proof {
                assert forall|i: int| 0 <= i < agent_registry.agents@.len() implies (#[trigger] agent_registry.agents@[i]).thought_count < u64::MAX by {
                    assert(agent_registry.agents@[i].thought_count <= p);
                }
                assert forall|i: int| 0 <= i < entity_type_registry.entity_types@.len() implies (#[trigger] entity_type_registry.entity_types@[i]).thought_count < u64::MAX by {
                    assert(entity_type_registry.entity_types@[i].thought_count <= p);
                }
            }
            let ghost ar0 = agent_registry;
            let ghost er0 = entity_type_registry;
            agent_registry.observe(t.agent_id.as_str(), None, None, t.index, t.timestamp);
            proof {
                assert(thoughts@.take(p + 1).drop_last() =~= thoughts@.take(p as int));
                assert forall|k: Seq<char>| #[trigger] agent_registry.count_of(k) == agent_thought_count(thoughts@.take(p + 1), k) by {
                    assert(ar0.count_of(k) == agent_thought_count(thoughts@.take(p as int), k));
                }
            }
            match &t.entity_type {
                Some(e) => entity_type_registry.observe(e.as_str(), t.index, t.timestamp),
                None => {},
            }
            proof {
                assert forall|k: Seq<char>| #[trigger] entity_type_registry.count_of(k) == entity_thought_count(thoughts@.take(p + 1), k) by {
                    assert(er0.count_of(k) == entity_thought_count(thoughts@.take(p as int), k));
                }
            }
            let ghost inv0 = invalid@;
            let mut j: usize = 0;
            while j < t.relations.len()
                invariant
                    j <= t.relations@.len(),
                    forall|id: u128| #[trigger] invalid@.contains(id) <==> (inv0.contains(id) || exists|q: int| 0 <= q < j && invalidating((#[trigger] t.relations@[q]).kind) && t.relations@[q].target_id == id),
                decreases t.relations@.len() - j,
            {
                let ghost inv1 = invalid@;
                let pushes = is_invalidating_relation_kind(t.relations[j].kind);
                if pushes {
                    invalid.push(t.relations[j].target_id);
                }
                proof {
                    assert forall|id: u128| #[trigger] invalid@.contains(id) <==> (inv0.contains(id) || exists|q: int| 0 <= q < j + 1 && invalidating((#[trigger] t.relations@[q]).kind) && t.relations@[q].target_id == id) by {
                        let here = invalidating(t.relations@[j as int].kind) && t.relations@[j as int].target_id == id;
                        assert(invalid@.contains(id) <==> (inv1.contains(id) || here)) by {
                            if pushes {
                                assert(invalid@ == inv1.push(t.relations@[j as int].target_id));
                                if invalid@.contains(id) {
                                    let m = choose|m: int| 0 <= m < invalid@.len() && invalid@[m] == id;
                                    if m < inv1.len() {
                                        assert(inv1[m] == id);
                                    }
                                }
                                if inv1.contains(id) {
                                    let m = choose|m: int| 0 <= m < inv1.len() && inv1[m] == id;
                                    assert(invalid@[m] == id);
                                }
                                if here {
                                    assert(invalid@[inv1.len() as int] == id);
                                }
                            }
                        }
                        if exists|q: int| 0 <= q < j + 1 && invalidating((#[trigger] t.relations@[q]).kind) && t.relations@[q].target_id == id {
                            let q = choose|q: int| 0 <= q < j + 1 && invalidating((#[trigger] t.relations@[q]).kind) && t.relations@[q].target_id == id;
                            if q < j {
                                assert(exists|q2: int| 0 <= q2 < j && invalidating((#[trigger] t.relations@[q2]).kind) && t.relations@[q2].target_id == id);
                            }
                        }
                        if exists|q: int| 0 <= q < j && invalidating((#[trigger] t.relations@[q]).kind) && t.relations@[q].target_id == id {
                            let q = choose|q: int| 0 <= q < j && invalidating((#[trigger] t.relations@[q]).kind) && t.relations@[q].target_id == id;
                            assert(0 <= q < j + 1);
                        }
                    }
                }
                j = j + 1;
            }
            proof {
                let pre = thoughts@.subrange(0, p as int);
                let post = thoughts@.subrange(0, p + 1);
                assert(post =~= pre.push(thoughts@[p as int]));
                assert forall|id: u128| #[trigger] invalid@.contains(id) <==> invalidated_by_chain(post, id) by {
                    if invalidated_by_chain(post, id) {
                        let (a, b) = choose|a: int, b: int|
                            0 <= a < post.len() && 0 <= b < post[a].relations@.len() && invalidating(
                                (#[trigger] post[a].relations@[b]).kind,
                            ) && post[a].relations@[b].target_id == id;
                        if a < p {
                            assert(pre[a] == post[a]);
                            assert(invalidated_by_chain(pre, id));
                        } else {
                            assert(post[a] == *t);
                            assert(t.relations@[b] == post[a].relations@[b]);
                        }
                    }
                    if inv0.contains(id) {
                        let (a, b) = choose|a: int, b: int|
                            0 <= a < pre.len() && 0 <= b < pre[a].relations@.len() && invalidating(
                                (#[trigger] pre[a].relations@[b]).kind,
                            ) && pre[a].relations@[b].target_id == id;
                        assert(post[a] == pre[a]);
                        assert(invalidated_by_chain(post, id));
                    }
                    if exists|q: int| 0 <= q < t.relations@.len() && invalidating((#[trigger] t.relations@[q]).kind) && t.relations@[q].target_id == id {
                        let q = choose|q: int| 0 <= q < t.relations@.len() && invalidating((#[trigger] t.relations@[q]).kind) && t.relations@[q].target_id == id;
                        assert(post[p as int].relations@[q] == t.relations@[q]);
                        assert(invalidated_by_chain(post, id));
                    }
                }
                assert(agent_registry.counts_at_most(p + 1)) by {
                    assert(ar0.counts_at_most(p as int));
                }
                assert(entity_type_registry.counts_at_most(p + 1)) by {
                    assert(er0.counts_at_most(p as int));
                    if t.entity_type is None {
                        assert forall|i: int| 0 <= i < entity_type_registry.entity_types@.len() implies (#[trigger] entity_type_registry.entity_types@[i]).thought_count <= p + 1 by {
                            assert(er0.entity_types@[i].thought_count <= p);
                        }
                    }
                }
                assert forall|k: Seq<char>| agent_registry.has(k) <==> ((exists|i: int| 0 <= i < agents_in.len() && (#[trigger] agents_in[i]).agent_id@ == k)
                    || exists|i: int| 0 <= i < p + 1 && (#[trigger] thoughts@[i]).agent_id@ == k) by {
                    if exists|i: int| 0 <= i < p + 1 && (#[trigger] thoughts@[i]).agent_id@ == k {
                        let i = choose|i: int| 0 <= i < p + 1 && (#[trigger] thoughts@[i]).agent_id@ == k;
                        if i < p {
                            assert(ar0.has(k));
                        }
                    }
                }
                assert forall|k: Seq<char>| entity_type_registry.has(k) <==> ((exists|i: int| 0 <= i < entities_in.len() && (#[trigger] entities_in[i]).entity_type@ == k)
                    || exists|i: int| 0 <= i < p + 1 && opt_view((#[trigger] thoughts@[i]).entity_type) == Some(k)) by {
                    if exists|i: int| 0 <= i < p + 1 && opt_view((#[trigger] thoughts@[i]).entity_type) == Some(k) {
                        let i = choose|i: int| 0 <= i < p + 1 && opt_view((#[trigger] thoughts@[i]).entity_type) == Some(k);
                        if i < p {
                            assert(er0.has(k));
                        }
                    }
                    if t.entity_type is None {
                        assert(entity_type_registry == er0);
                    }
                }
            }
            p = p + 1;
        }
        assert(thoughts@.subrange(0, thoughts@.len() as int) =~= thoughts@);
        let query_indexes = QueryIndexes::from_thoughts(thoughts.as_slice());
        Ok(MentisDb {
            thoughts,
            agent_registry,
            entity_type_registry,
            invalidated_thought_ids: invalid,
            query_indexes,
        })
    }

    /// Whether the thought with this id was already hidden at `as_of`: it is
    /// invalidated and some thought not later than `as_of` carries an
    /// invalidating relation to it that is in force at that instant.
    pub fn is_invalidated_as_of(&self, thought_id: u128, as_of: Timestamp) -> (r: bool)
        requires
            self.wf(),
        ensures
            r == (invalidated_by_chain(self.spec_thoughts(), thought_id) && exists|i: int|
                0 <= i < self.spec_thoughts().len() && invalidates_as_of(#[trigger] self.spec_thoughts()[i], thought_id, as_of)),
    {
        if !self.is_invalidated(thought_id) {
            return false;
        }
        let mut i: usize = 0;
        while i < self.thoughts.len()
            invariant
                i <= self.thoughts@.len(),
                invalidated_by_chain(self.thoughts@, thought_id),
                forall|j: int| 0 <= j < i ==> !invalidates_as_of(#[trigger] self.thoughts@[j], thought_id, as_of),
            decreases self.thoughts@.len() - i,
        {
            let t = &self.thoughts[i];
            if t.timestamp.not_after(&as_of) {
                let mut k: usize = 0;
                while k < t.relations.len()
                    invariant
                        i < self.thoughts@.len(),
                        *t == self.thoughts@[i as int],
                        ts_le(t.timestamp, as_of),
                        invalidated_by_chain(self.thoughts@, thought_id),
                        k <= t.relations@.len(),
                        forall|q: int| 0 <= q < k ==> {
                            let rel = #[trigger] t.relations@[q];
                            !(rel.target_id == thought_id && invalidating(rel.kind) && !(rel.valid_at matches Some(v) && ts_lt(as_of, v)) && !(rel.invalid_at matches Some(e) && ts_le(e, as_of)))
                        },
                    decreases t.relations@.len() - k,
                {
                    let rel = &t.relations[k];
                    let started = match rel.valid_at {
                        Some(v) => !as_of.before(&v),
                        None => true,
                    };
                    let ended = match rel.invalid_at {
                        Some(e) => e.not_after(&as_of),
                        None => false,
                    };
                    if rel.target_id == thought_id && is_invalidating_relation_kind(rel.kind) && started && !ended {
                        assert(invalidates_as_of(self.thoughts@[i as int], thought_id, as_of));
                        return true;
                    }
                    k = k + 1;
                }
                assert(!invalidates_as_of(self.thoughts@[i as int], thought_id, as_of));
            }
            i = i + 1;
        }
        false
    }
}
/// A committed thought is found again: the head, its index, its id and its
/// hash all designate the position it was committed at.
pub proof fn lemma_committed_thought_found(db: &MentisDb, before: Seq<Thought>, t: Thought)
    requires
        db.spec_thoughts() == before.push(t),
        t.index == before.len(),
    ensures
        db.anchor_designates(ThoughtTraversalAnchor::Head, before.len() as int),
        db.anchor_designates(ThoughtTraversalAnchor::Index(t.index), before.len() as int),
        db.anchor_designates(ThoughtTraversalAnchor::Id(t.id), before.len() as int),
        db.anchor_designates(ThoughtTraversalAnchor::Hash(t.hash), before.len() as int),
{
    assert(db.spec_thoughts()[before.len() as int] == t);
}

} // verus!
