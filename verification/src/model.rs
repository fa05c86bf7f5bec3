//! The records of the memory log: timestamps, scores, relations, proposed
//! thoughts and committed thoughts, and the normalizations applied to them.
use vstd::prelude::*;
use crate::kinds::{MemoryScope, ThoughtRelationKind, ThoughtRole, ThoughtType};
use crate::text::{chars_of, concat_str, str_eq, to_lowercase, trim, trim_str, unicode_lower};

verus! {

/// A UTC instant: whole seconds since the Unix epoch and the nanoseconds
/// within that second (up to two billion during a leap second).
#[derive(Debug, Clone, Copy, PartialEq, Eq, Hash, Structural)]
pub struct Timestamp {
    /// Seconds since 1970-01-01T00:00:00Z.
    pub secs: i64,
    /// Nanoseconds within the second.
    pub nanos: u32,
}

/// Chronological order of instants.
pub open spec fn ts_lt(a: Timestamp, b: Timestamp) -> bool {
    a.secs < b.secs || (a.secs == b.secs && a.nanos < b.nanos)
}

pub open spec fn ts_le(a: Timestamp, b: Timestamp) -> bool {
    ts_lt(a, b) || a == b
}

impl Timestamp {
    /// Whether `self` is strictly earlier than `other`.
    pub fn before(&self, other: &Timestamp) -> (r: bool)
        ensures
            r == ts_lt(*self, *other),
    {
        self.secs < other.secs || (self.secs == other.secs && self.nanos < other.nanos)
    }

    /// Whether `self` is earlier than or equal to `other`.
    pub fn not_after(&self, other: &Timestamp) -> (r: bool)
        ensures
            r == ts_le(*self, *other),
    {
        self.before(other) || (self.secs == other.secs && self.nanos == other.nanos)
    }
}

/// A score in `[0, 1]` such as importance or confidence, carried as an
/// integer that orders exactly as the single-precision value does: a
/// non-negative value's rank is its IEEE-754 bit pattern, a negative
/// value's rank is the negated bit pattern of its magnitude. `None` stands
/// for a NaN, which compares false with everything.
#[derive(Debug, Clone, Copy, PartialEq, Eq, Hash, Structural)]
pub struct Score {
    /// Order-preserving rank of the value, or `None` for NaN.
    pub rank: Option<i32>,
}

/// `a < b` on the underlying values.
pub open spec fn score_lt(a: Score, b: Score) -> bool {
    a.rank matches Some(x) && b.rank matches Some(y) && x < y
}

/// `a >= b` on the underlying values.
pub open spec fn score_ge(a: Score, b: Score) -> bool {
    a.rank matches Some(x) && b.rank matches Some(y) && x >= y
}

/// The rank of positive infinity.
pub const INFINITY_RANK: i32 = 2139095040;

/// Whether the value is neither infinite nor NaN.
pub open spec fn is_finite_score(s: Score) -> bool {
    s.rank matches Some(x) && -INFINITY_RANK < x < INFINITY_RANK
}

/// A score clamped into `[0, 1]`; a NaN stays a NaN.
pub open spec fn clamp_unit(s: Score) -> Score {
    match s.rank {
        Some(x) => Score { rank: Some(if x < 0 { 0 } else if x > ONE_RANK { ONE_RANK } else { x }) },
        None => s,
    }
}

impl Score {
    /// The score clamped into `[0, 1]`.
    pub fn clamped(&self) -> (r: Score)
        ensures
            r == clamp_unit(*self),
    {
        match self.rank {
            Some(x) => Score { rank: Some(if x < 0 { 0 } else if x > ONE_RANK { ONE_RANK } else { x }) },
            None => *self,
        }
    }

    /// Whether the value is neither infinite nor NaN.
    pub fn is_finite(&self) -> (r: bool)
        ensures
            r == is_finite_score(*self),
    {
        match self.rank {
            Some(x) => -INFINITY_RANK < x && x < INFINITY_RANK,
            None => false,
        }
    }

    /// `self < other` on the underlying values.
    pub fn less_than(&self, other: &Score) -> (r: bool)
        ensures
            r == score_lt(*self, *other),
    {
        match (self.rank, other.rank) {
            (Some(x), Some(y)) => x < y,
            _ => false,
        }
    }

    /// `self >= other` on the underlying values.
    pub fn at_least(&self, other: &Score) -> (r: bool)
        ensures
            r == score_ge(*self, *other),
    {
        match (self.rank, other.rank) {
            (Some(x), Some(y)) => x >= y,
            _ => false,
        }
    }
}

/// A typed edge from one thought to another.
#[derive(Debug, Clone, PartialEq, Eq)]
pub struct ThoughtRelation {
    /// Semantic meaning of the edge.
    pub kind: ThoughtRelationKind,
    /// Stable id of the target thought.
    pub target_id: u128,
    /// Chain of the target for a cross-chain relation; `None` within the chain.
    pub chain_key: Option<String>,
    /// Instant from which the relation holds.
    pub valid_at: Option<Timestamp>,
    /// Instant from which the relation no longer holds.
    pub invalid_at: Option<Timestamp>,
}

/// What makes two relations the same edge.
pub open spec fn relation_key(r: ThoughtRelation) -> (
    ThoughtRelationKind,
    u128,
    Option<Seq<char>>,
    Option<Timestamp>,
    Option<Timestamp>,
) {
    (
        r.kind,
        r.target_id,
        match r.chain_key {
            Some(k) => Some(k@),
            None => None,
        },
        r.valid_at,
        r.invalid_at,
    )
}

/// Copies a string option.
pub fn clone_opt_string(s: &Option<String>) -> (r: Option<String>)
    ensures
        match (r, *s) {
            (Some(a), Some(b)) => a@ == b@,
            (None, None) => true,
            _ => false,
        },
{
    match s {
        Some(x) => Some(x.clone()),
        None => None,
    }
}

/// Copies a vector of strings.
pub fn clone_strings(v: &Vec<String>) -> (r: Vec<String>)
    ensures
        r@.len() == v@.len(),
        forall|i: int| 0 <= i < v@.len() ==> (#[trigger] r@[i])@ == v@[i]@,
{
    let mut r: Vec<String> = Vec::new();
    let mut i: usize = 0;
    while i < v.len()
        invariant
            i <= v@.len(),
            r@.len() == i,
            forall|j: int| 0 <= j < i ==> (#[trigger] r@[j])@ == v@[j]@,
        decreases v@.len() - i,
    {
        r.push(v[i].clone());
        i = i + 1;
    }
    r
}

impl ThoughtRelation {
    /// A new intra-chain relation with no temporal bounds.
    pub fn new(kind: ThoughtRelationKind, target_id: u128) -> (r: ThoughtRelation)
        ensures
            r.kind == kind,
            r.target_id == target_id,
            r.chain_key is None,
            r.valid_at is None,
            r.invalid_at is None,
    {
        ThoughtRelation { kind, target_id, chain_key: None, valid_at: None, invalid_at: None }
    }

    /// A field-by-field copy.
    pub fn copy(&self) -> (r: ThoughtRelation)
        ensures
            relation_key(r) == relation_key(*self),
    {
        ThoughtRelation {
            kind: self.kind,
            target_id: self.target_id,
            chain_key: clone_opt_string(&self.chain_key),
            valid_at: self.valid_at,
            invalid_at: self.invalid_at,
        }
    }

    /// Whether two relations are the same edge.
    pub fn same_edge(&self, other: &ThoughtRelation) -> (r: bool)
        ensures
            r == (relation_key(*self) == relation_key(*other)),
    {
        let keys_equal = match (&self.chain_key, &other.chain_key) {
            (Some(a), Some(b)) => str_eq(a.as_str(), b.as_str()),
            (None, None) => true,
            _ => false,
        };
        self.kind == other.kind && self.target_id == other.target_id && keys_equal
            && self.valid_at == other.valid_at && self.invalid_at == other.invalid_at
    }
}

/// A proposed memory, before the chain assigns its system-managed fields.
/// Scores are carried as [`Score`] ranks.
pub struct ThoughtInput {
    /// Session the thought belongs to.
    pub session_id: Option<u128>,
    /// Human-readable name of the producing agent.
    pub agent_name: Option<String>,
    /// Owner or grouping label of the producing agent.
    pub agent_owner: Option<String>,
    /// Key used to sign the signable payload.
    pub signing_key_id: Option<String>,
    /// Detached signature over the signable payload.
    pub thought_signature: Option<Vec<u8>>,
    /// Semantic meaning of the thought.
    pub thought_type: ThoughtType,
    /// Operational role of the thought.
    pub role: ThoughtRole,
    /// Primary content.
    pub content: String,
    /// Confidence score.
    pub confidence: Option<Score>,
    /// Importance score.
    pub importance: Score,
    /// Free-form tags.
    pub tags: Vec<String>,
    /// Concept labels.
    pub concepts: Vec<String>,
    /// Back-references to prior thought indices.
    pub refs: Vec<u64>,
    /// Typed relations to prior thoughts.
    pub relations: Vec<ThoughtRelation>,
    /// Entity type label.
    pub entity_type: Option<String>,
    /// Episode the thought came from.
    pub source_episode: Option<String>,
}

/// The rank of the value one half.
pub const HALF_RANK: i32 = 1056964608;

/// The rank of the value one.
pub const ONE_RANK: i32 = 1065353216;

impl ThoughtInput {
    /// A new input: role `Memory`, importance one half, no confidence and no
    /// metadata.
    pub fn new(thought_type: ThoughtType, content: String) -> (r: ThoughtInput)
        ensures
            r.thought_type == thought_type,
            r.content@ == content@,
            r.role == ThoughtRole::Memory,
            r.importance == (Score { rank: Some(HALF_RANK) }),
            r.confidence is None,
            r.tags@.len() == 0,
            r.concepts@.len() == 0,
            r.refs@.len() == 0,
            r.relations@.len() == 0,
            r.session_id is None,
            r.agent_name is None,
            r.agent_owner is None,
            r.signing_key_id is None,
            r.thought_signature is None,
            r.entity_type is None,
            r.source_episode is None,
    {
        ThoughtInput {
            session_id: None,
            agent_name: None,
            agent_owner: None,
            signing_key_id: None,
            thought_signature: None,
            thought_type,
            role: ThoughtRole::Memory,
            content,
            confidence: None,
            importance: Score { rank: Some(HALF_RANK) },
            tags: Vec::new(),
            concepts: Vec::new(),
            refs: Vec::new(),
            relations: Vec::new(),
            entity_type: None,
            source_episode: None,
        }
    }

    /// Sets the session.
    pub fn with_session_id(self, session_id: u128) -> (r: ThoughtInput)
        ensures
            r == (ThoughtInput { session_id: Some(session_id), ..self }),
    {
        ThoughtInput { session_id: Some(session_id), ..self }
    }

    /// Sets the agent's display name.
    pub fn with_agent_name(self, agent_name: String) -> (r: ThoughtInput)
        ensures
            r == (ThoughtInput { agent_name: Some(agent_name), ..self }),
    {
        ThoughtInput { agent_name: Some(agent_name), ..self }
    }

    /// Sets the agent's owner.
    pub fn with_agent_owner(self, agent_owner: String) -> (r: ThoughtInput)
        ensures
            r == (ThoughtInput { agent_owner: Some(agent_owner), ..self }),
    {
        ThoughtInput { agent_owner: Some(agent_owner), ..self }
    }

    /// Sets the signing key id.
    pub fn with_signing_key_id(self, signing_key_id: String) -> (r: ThoughtInput)
        ensures
            r == (ThoughtInput { signing_key_id: Some(signing_key_id), ..self }),
    {
        ThoughtInput { signing_key_id: Some(signing_key_id), ..self }
    }

    /// Sets the signature over the signable payload.
    pub fn with_thought_signature(self, thought_signature: Vec<u8>) -> (r: ThoughtInput)
        ensures
            r == (ThoughtInput { thought_signature: Some(thought_signature), ..self }),
    {
        ThoughtInput { thought_signature: Some(thought_signature), ..self }
    }

    /// Sets the role.
    pub fn with_role(self, role: ThoughtRole) -> (r: ThoughtInput)
        ensures
            r == (ThoughtInput { role, ..self }),
    {
        ThoughtInput { role, ..self }
    }

    /// Sets the confidence, clamped into `[0, 1]`; an infinite or NaN value
    /// leaves the input unchanged.
    pub fn with_confidence(self, confidence: Score) -> (r: ThoughtInput)
        ensures
            is_finite_score(confidence) ==> r == (ThoughtInput { confidence: Some(clamp_unit(confidence)), ..self }),
            !is_finite_score(confidence) ==> r == self,
    {
        if confidence.is_finite() {
            ThoughtInput { confidence: Some(confidence.clamped()), ..self }
        } else {
            self
        }
    }

    /// Sets the importance, clamped into `[0, 1]`; an infinite or NaN value
    /// sets one half.
    pub fn with_importance(self, importance: Score) -> (r: ThoughtInput)
        ensures
            r == (ThoughtInput {
                importance: if is_finite_score(importance) {
                    clamp_unit(importance)
                } else {
                    Score { rank: Some(HALF_RANK) }
                },
                ..self
            }),
    {
        let v = if importance.is_finite() {
            importance.clamped()
        } else {
            Score { rank: Some(HALF_RANK) }
        };
        ThoughtInput { importance: v, ..self }
    }

    /// Replaces the tags.
    pub fn with_tags(self, tags: Vec<String>) -> (r: ThoughtInput)
        ensures
            r == (ThoughtInput { tags, ..self }),
    {
        ThoughtInput { tags, ..self }
    }

    /// Replaces the concepts.
    pub fn with_concepts(self, concepts: Vec<String>) -> (r: ThoughtInput)
        ensures
            r == (ThoughtInput { concepts, ..self }),
    {
        ThoughtInput { concepts, ..self }
    }

    /// Replaces the back-references.
    pub fn with_refs(self, refs: Vec<u64>) -> (r: ThoughtInput)
        ensures
            r == (ThoughtInput { refs, ..self }),
    {
        ThoughtInput { refs, ..self }
    }

    /// Replaces the relations.
    pub fn with_relations(self, relations: Vec<ThoughtRelation>) -> (r: ThoughtInput)
        ensures
            r == (ThoughtInput { relations, ..self }),
    {
        ThoughtInput { relations, ..self }
    }

    /// Sets the entity type.
    pub fn with_entity_type(self, entity_type: String) -> (r: ThoughtInput)
        ensures
            r == (ThoughtInput { entity_type: Some(entity_type), ..self }),
    {
        ThoughtInput { entity_type: Some(entity_type), ..self }
    }

    /// Sets the source episode.
    pub fn with_source_episode(self, source_episode: String) -> (r: ThoughtInput)
        ensures
            r == (ThoughtInput { source_episode: Some(source_episode), ..self }),
    {
        ThoughtInput { source_episode: Some(source_episode), ..self }
    }

    /// Adds a relation to a thought of another chain, without validity times.
    pub fn with_cross_chain_relation(self, kind: ThoughtRelationKind, chain_key: String, target_id: u128) -> (r: ThoughtInput)
        ensures
            r.relations@.len() == self.relations@.len() + 1,
            r.relations@.drop_last() == self.relations@,
            r.relations@.last().kind == kind,
            r.relations@.last().target_id == target_id,
            opt_view(r.relations@.last().chain_key) == Some(chain_key@),
            r.relations@.last().valid_at is None,
            r.relations@.last().invalid_at is None,
            r == (ThoughtInput { relations: r.relations, ..self }),
    {
        let mut r = self;
        let ghost before = r.relations@;
        r.relations.push(ThoughtRelation { kind, target_id, chain_key: Some(chain_key), valid_at: None, invalid_at: None });
        assert(r.relations@.drop_last() =~= before);
        r
    }

    /// Adds the scope tag, unless an equal tag is already present.
    pub fn with_scope(self, scope: MemoryScope) -> (r: ThoughtInput)
        ensures
            (exists|i: int| 0 <= i < self.tags@.len() && (#[trigger] self.tags@[i])@ == scope.tag())
                ==> r.tags@ == self.tags@,
            (forall|i: int| 0 <= i < self.tags@.len() ==> (#[trigger] self.tags@[i])@
                != scope.tag()) ==> (r.tags@.len() == self.tags@.len() + 1 && r.tags@.subrange(
                0,
                self.tags@.len() as int,
            ) == self.tags@ && r.tags@.last()@ == scope.tag()),
            r == (ThoughtInput { tags: r.tags, ..self }),
    {
        let mut r = self;
        let tag = scope.as_tag();
        let mut i: usize = 0;
        while i < r.tags.len()
            invariant
                r.tags@ == self.tags@,
                r == (ThoughtInput { tags: r.tags, ..self }),
                i <= r.tags@.len(),
                tag@ == scope.tag(),
                forall|j: int| 0 <= j < i ==> (#[trigger] r.tags@[j])@ != tag@,
            decreases r.tags@.len() - i,
        {
            if str_eq(r.tags[i].as_str(), tag) {
                return r;
            }
            i = i + 1;
        }
        let ghost before = r.tags@;
        r.tags.push(String::from_str(tag));
        assert(r.tags@.subrange(0, before.len() as int) =~= before);
        r
    }
}

/// A committed, hash-chained memory record.
pub struct Thought {
    /// Schema version of the record.
    pub schema_version: u32,
    /// Stable unique identifier.
    pub id: u128,
    /// Zero-based position within the chain.
    pub index: u64,
    /// Commit instant.
    pub timestamp: Timestamp,
    /// Session the thought belongs to.
    pub session_id: Option<u128>,
    /// Producing agent.
    pub agent_id: String,
    /// Key used to sign the payload.
    pub signing_key_id: Option<String>,
    /// Detached signature.
    pub thought_signature: Option<Vec<u8>>,
    /// Semantic meaning.
    pub thought_type: ThoughtType,
    /// Operational role.
    pub role: ThoughtRole,
    /// Primary content.
    pub content: String,
    /// Confidence score.
    pub confidence: Option<Score>,
    /// Importance score.
    pub importance: Score,
    /// Free-form tags.
    pub tags: Vec<String>,
    /// Concept labels.
    pub concepts: Vec<String>,
    /// Back-references to prior thought indices.
    pub refs: Vec<u64>,
    /// Typed relations.
    pub relations: Vec<ThoughtRelation>,
    /// Entity type label.
    pub entity_type: Option<String>,
    /// Episode the thought came from.
    pub source_episode: Option<String>,
    /// Hash of the previous thought; empty for the first.
    pub prev_hash: String,
    /// Hash of this thought.
    pub hash: String,
    /// The binary encoding of the fields the hash covers, from the schema
    /// version up to but excluding `prev_hash`.
    pub hash_body: Vec<u8>,
}

/// `values` trimmed, without empty entries, and without later entries whose
/// lower-cased form repeats an earlier one.
pub open spec fn normalize_seq(values: Seq<Seq<char>>) -> Seq<Seq<char>>
    decreases values.len(),
{
    if values.len() == 0 {
        Seq::empty()
    } else {
        let prev = normalize_seq(values.drop_last());
        let t = trim(values.last());
        if t.len() == 0 || (exists|j: int|
            0 <= j < prev.len() && unicode_lower(#[trigger] prev[j]) == unicode_lower(t)) {
            prev
        } else {
            prev.push(t)
        }
    }
}

/// A list in normal form: every entry trimmed and non-empty, and no entry
/// repeating an earlier one up to case.
pub open spec fn is_normalized(n: Seq<Seq<char>>) -> bool {
    forall|i: int| 0 <= i < n.len() ==> {
        &&& trim(#[trigger] n[i]) == n[i]
        &&& n[i].len() > 0
        &&& forall|j: int| 0 <= j < i ==> unicode_lower(#[trigger] n[j]) != unicode_lower(n[i])
    }
}

proof fn lemma_normalize_is_normalized(v: Seq<Seq<char>>)
    ensures
        is_normalized(normalize_seq(v)),
    decreases v.len(),
{
    if v.len() > 0 {
        lemma_normalize_is_normalized(v.drop_last());
        let prev = normalize_seq(v.drop_last());
        let t = trim(v.last());
        crate::text::lemma_trim_idempotent(v.last());
        if !(t.len() == 0 || (exists|j: int| 0 <= j < prev.len() && unicode_lower(#[trigger] prev[j]) == unicode_lower(t))) {
            let n = prev.push(t);
            assert forall|i: int| 0 <= i < n.len() implies {
                &&& trim(#[trigger] n[i]) == n[i]
                &&& n[i].len() > 0
                &&& forall|j: int| 0 <= j < i ==> unicode_lower(#[trigger] n[j]) != unicode_lower(n[i])
            } by {
                if i < prev.len() {
                    assert(n[i] == prev[i]);
                    assert forall|j: int| 0 <= j < i implies unicode_lower(#[trigger] n[j]) != unicode_lower(n[i]) by {
                        assert(n[j] == prev[j]);
                    }
                } else {
                    assert forall|j: int| 0 <= j < i implies unicode_lower(#[trigger] n[j]) != unicode_lower(n[i]) by {
                        assert(n[j] == prev[j]);
                    }
                }
            }
        }
    }
}

proof fn lemma_normalized_fixed(n: Seq<Seq<char>>)
    requires
        is_normalized(n),
    ensures
        normalize_seq(n) == n,
    decreases n.len(),
{
    if n.len() > 0 {
        let init = n.drop_last();
        assert(is_normalized(init)) by {
            assert forall|i: int| 0 <= i < init.len() implies {
                &&& trim(#[trigger] init[i]) == init[i]
                &&& init[i].len() > 0
                &&& forall|j: int| 0 <= j < i ==> unicode_lower(#[trigger] init[j]) != unicode_lower(init[i])
            } by {
                assert(init[i] == n[i]);
                assert forall|j: int| 0 <= j < i implies unicode_lower(#[trigger] init[j]) != unicode_lower(init[i]) by {
                    assert(init[j] == n[j]);
                }
            }
        }
        lemma_normalized_fixed(init);
        let k = n.len() - 1;
        assert(trim(n[k]) == n[k] && n[k].len() > 0);
        assert forall|j: int| 0 <= j < init.len() implies unicode_lower(#[trigger] init[j]) != unicode_lower(trim(n.last())) by {
            assert(init[j] == n[j]);
            assert(unicode_lower(n[j]) != unicode_lower(n[k]));
        }
        assert(init.push(n.last()) =~= n);
    }
}

/// Normalizing twice is normalizing once: a list and its normal form
/// normalize alike, so lists that differ only in surrounding whitespace,
/// blank entries or later repeats up to case have the same normal form as
/// their common normal form.
pub proof fn lemma_normalize_idempotent(v: Seq<Seq<char>>)
    ensures
        normalize_seq(normalize_seq(v)) == normalize_seq(v),
{
    lemma_normalize_is_normalized(v);
    lemma_normalized_fixed(normalize_seq(v));
}

/// The character sequences of a vector of strings.
pub open spec fn views(v: Seq<String>) -> Seq<Seq<char>> {
    v.map_values(|s: String| s@)
}

/// Trims, drops empty entries and removes case-insensitive repeats, keeping
/// the first spelling of each.
pub fn normalize_strings(values: Vec<String>) -> (r: Vec<String>)
    ensures
        views(r@) == normalize_seq(views(values@)),
{
    let mut r: Vec<String> = Vec::new();
    let mut seen: Vec<String> = Vec::new();
    let mut i: usize = 0;
    while i < values.len()
        invariant
            i <= values@.len(),
            views(r@) == normalize_seq(views(values@.subrange(0, i as int))),
            seen@.len() == r@.len(),
            forall|j: int| 0 <= j < r@.len() ==> (#[trigger] seen@[j])@ == unicode_lower(r@[j]@),
        decreases values@.len() - i,
    {
        let t = trim_str(values[i].as_str());
        let key = to_lowercase(t.as_str());
        let mut found = false;
        let mut k: usize = 0;
        while k < seen.len()
            invariant
                k <= seen@.len(),
                seen@.len() == r@.len(),
                forall|j: int| 0 <= j < r@.len() ==> (#[trigger] seen@[j])@ == unicode_lower(r@[j]@),
                found == (exists|j: int| 0 <= j < k && (#[trigger] seen@[j])@ == key@),
            decreases seen@.len() - k,
        {
            if str_eq(seen[k].as_str(), key.as_str()) {
                found = true;
            }
            k = k + 1;
        }
        proof {
            let vs = views(values@.subrange(0, i + 1));
            assert(vs.drop_last() =~= views(values@.subrange(0, i as int)));
            assert(vs.last() == values@[i as int]@);
            let prev = views(r@);
            assert(found == (exists|j: int|
                0 <= j < prev.len() && unicode_lower(#[trigger] prev[j]) == unicode_lower(t@))) by {
                if found {
                    let j = choose|j: int| 0 <= j < k && (#[trigger] seen@[j])@ == key@;
                    assert(unicode_lower(prev[j]) == unicode_lower(t@));
                }
                if exists|j: int|
                    0 <= j < prev.len() && unicode_lower(#[trigger] prev[j]) == unicode_lower(t@) {
                    let j = choose|j: int|
                        0 <= j < prev.len() && unicode_lower(#[trigger] prev[j]) == unicode_lower(
                            t@,
                        );
                    assert(seen@[j]@ == key@);
                }
            }
        }
        if t.unicode_len() > 0 && !found {
            let ghost before = r@;
            r.push(t);
            seen.push(key);
            assert(views(r@) =~= views(before).push(r@.last()@));
        }
        i = i + 1;
    }
    assert(values@.subrange(0, values@.len() as int) =~= values@);
    r
}

/// Why a request to the chain was refused.
#[derive(Debug, Clone, PartialEq, Eq)]
pub enum ChainError {
    /// An argument was empty, out of range or otherwise unusable.
    InvalidInput(String),
    /// The requested record does not exist.
    NotFound(String),
    /// Stored data contradicts the chain's invariants.
    InvalidData(String),
    /// The operation is not supported for this chain.
    Unsupported(String),
    /// Stored data ended in the middle of a record.
    UnexpectedEof(String),
}

/// The message of an empty-label refusal for the named field.
pub open spec fn empty_label_message(field_name: Seq<char>) -> Seq<char> {
    field_name + " must not be empty"@
}

/// `value` trimmed; refused when nothing remains.
pub fn normalize_non_empty_label(value: &str, field_name: &str) -> (r: Result<String, ChainError>)
    ensures
        trim(value@).len() > 0 ==> (r matches Ok(s) && s@ == trim(value@)),
        trim(value@).len() == 0 ==> (r matches Err(ChainError::InvalidInput(m)) && m@
            == empty_label_message(field_name@)),
{
    let t = trim_str(value);
    if t.unicode_len() == 0 {
        Err(ChainError::InvalidInput(concat_str(field_name, " must not be empty")))
    } else {
        Ok(t)
    }
}

/// `value` trimmed, or `None` when nothing remains.
pub open spec fn trimmed_non_empty(value: Option<Seq<char>>) -> Option<Seq<char>> {
    match value {
        Some(v) => if trim(v).len() > 0 {
            Some(trim(v))
        } else {
            None
        },
        None => None,
    }
}

/// The character view of an optional string.
pub open spec fn opt_view(value: Option<String>) -> Option<Seq<char>> {
    match value {
        Some(v) => Some(v@),
        None => None,
    }
}

/// Trims an optional label and drops it when nothing remains.
pub fn trim_optional(value: Option<&str>) -> (r: Option<String>)
    ensures
        opt_view(r) == trimmed_non_empty(match value {
            Some(v) => Some(v@),
            None => None,
        }),
{
    match value {
        Some(v) => {
            let t = trim_str(v);
            if t.unicode_len() > 0 {
                Some(t)
            } else {
                None
            }
        },
        None => None,
    }
}

} // verus!
