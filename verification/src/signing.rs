//! The payload a producing agent signs before its thought is appended: the
//! fields it chose, normalized as the append will store them, without the
//! fields the chain assigns (id, index, timestamp and hashes).
use vstd::prelude::*;
use crate::kinds::{ThoughtRole, ThoughtType, MENTISDB_CURRENT_VERSION};
use crate::model::{
    clamp_unit, clone_strings, normalize_seq, normalize_strings, relation_key, views, Score, ThoughtInput,
    ThoughtRelation, Timestamp,
};
use crate::kinds::ThoughtRelationKind;

verus! {

/// The signable fields of a proposed append, in the order they are
/// serialized.
pub struct SignableThought {
    /// Schema version the thought will be written with.
    pub schema_version: u32,
    /// Producing agent.
    pub agent_id: String,
    /// Session the thought belongs to.
    pub session_id: Option<u128>,
    /// Semantic meaning of the thought.
    pub thought_type: ThoughtType,
    /// Operational role of the thought.
    pub role: ThoughtRole,
    /// Primary content.
    pub content: String,
    /// Confidence, clamped into `[0, 1]`.
    pub confidence: Option<Score>,
    /// Importance, clamped into `[0, 1]`.
    pub importance: Score,
    /// Tags, normalized.
    pub tags: Vec<String>,
    /// Concepts, normalized.
    pub concepts: Vec<String>,
    /// Back-references to prior thought indices.
    pub refs: Vec<u64>,
    /// Typed relations.
    pub relations: Vec<ThoughtRelation>,
}

/// A relation as the signature sees it.
pub type RelationModel = (ThoughtRelationKind, u128, Option<Seq<char>>, Option<Timestamp>, Option<Timestamp>);

/// The signable fields as values: schema version, agent, session, type,
/// role, content, confidence, importance, tags, concepts, references and
/// relations.
pub type SignableModel = (
    u32,
    Seq<char>,
    Option<u128>,
    ThoughtType,
    ThoughtRole,
    Seq<char>,
    Option<Score>,
    Score,
    Seq<Seq<char>>,
    Seq<Seq<char>>,
    Seq<u64>,
    Seq<RelationModel>,
);

impl SignableThought {
    /// The fields as values.
    pub open spec fn model(&self) -> SignableModel {
        (
            self.schema_version,
            self.agent_id@,
            self.session_id,
            self.thought_type,
            self.role,
            self.content@,
            self.confidence,
            self.importance,
            views(self.tags@),
            views(self.concepts@),
            self.refs@,
            self.relations@.map_values(|r: ThoughtRelation| relation_key(r)),
        )
    }
}

/// What `agent_id` signs for `input`.
pub open spec fn signable_model(agent_id: Seq<char>, input: ThoughtInput) -> SignableModel {
    (
        MENTISDB_CURRENT_VERSION,
        agent_id,
        input.session_id,
        input.thought_type,
        input.role,
        input.content@,
        match input.confidence {
            Some(c) => Some(clamp_unit(c)),
            None => None,
        },
        clamp_unit(input.importance),
        normalize_seq(views(input.tags@)),
        normalize_seq(views(input.concepts@)),
        input.refs@,
        input.relations@.map_values(|r: ThoughtRelation| relation_key(r)),
    )
}

/// Whether two inputs agree on everything a signature covers: session,
/// type, role, content, scores, references and relations, and tags and
/// concepts up to normal form. Agent name and owner, signing key,
/// signature, entity type and source episode are not covered.
pub open spec fn signs_alike(a: ThoughtInput, b: ThoughtInput) -> bool {
    &&& a.session_id == b.session_id
    &&& a.thought_type == b.thought_type
    &&& a.role == b.role
    &&& a.content@ == b.content@
    &&& a.confidence == b.confidence
    &&& a.importance == b.importance
    &&& normalize_seq(views(a.tags@)) == normalize_seq(views(b.tags@))
    &&& normalize_seq(views(a.concepts@)) == normalize_seq(views(b.concepts@))
    &&& a.refs@ == b.refs@
    &&& a.relations@.map_values(|r: ThoughtRelation| relation_key(r)) == b.relations@.map_values(
        |r: ThoughtRelation| relation_key(r),
    )
}

/// Inputs that agree on what a signature covers are signed alike, whatever
/// their agent name and owner, signing key, signature, entity type and
/// source episode; tag and concept lists that differ only in surrounding
/// whitespace, blank entries or later repeats up to case agree, since each
/// has its normal form's normal form. Different agents sign differently.
pub proof fn lemma_signs_alike(agent_id: Seq<char>, other_agent: Seq<char>, a: ThoughtInput, b: ThoughtInput)
    ensures
        signs_alike(a, b) ==> signable_model(agent_id, a) == signable_model(agent_id, b),
        normalize_seq(normalize_seq(views(a.tags@))) == normalize_seq(views(a.tags@)),
        normalize_seq(normalize_seq(views(a.concepts@))) == normalize_seq(views(a.concepts@)),
        agent_id != other_agent ==> signable_model(agent_id, a) != signable_model(other_agent, a),
        a.content@ != b.content@ ==> signable_model(agent_id, a) != signable_model(agent_id, b),
{
    crate::model::lemma_normalize_idempotent(views(a.tags@));
    crate::model::lemma_normalize_idempotent(views(a.concepts@));
}

fn copy_refs(refs: &Vec<u64>) -> (r: Vec<u64>)
    ensures
        r@ == refs@,
{
    let mut r: Vec<u64> = Vec::new();
    let mut i: usize = 0;
    while i < refs.len()
        invariant
            i <= refs@.len(),
            r@ == refs@.take(i as int),
        decreases refs@.len() - i,
    {
        r.push(refs[i]);
        i = i + 1;
        assert(r@ =~= refs@.take(i as int));
    }
    assert(refs@.take(refs@.len() as int) =~= refs@);
    r
}

/// The signable fields that `agent_id` signs for `input`: the current
/// schema version, the scores clamped into `[0, 1]` (a NaN stays NaN), the
/// tags and concepts trimmed with blank and case-insensitively repeated
/// entries dropped, and everything else as given.
pub fn signable_thought(agent_id: &str, input: &ThoughtInput) -> (r: SignableThought)
    ensures
        r.schema_version == MENTISDB_CURRENT_VERSION,
        r.agent_id@ == agent_id@,
        r.session_id == input.session_id,
        r.thought_type == input.thought_type,
        r.role == input.role,
        r.content@ == input.content@,
        r.confidence == match input.confidence {
            Some(c) => Some(clamp_unit(c)),
            None => None,
        },
        r.importance == clamp_unit(input.importance),
        views(r.tags@) == normalize_seq(views(input.tags@)),
        views(r.concepts@) == normalize_seq(views(input.concepts@)),
        r.refs@ == input.refs@,
        r.relations@.len() == input.relations@.len(),
        forall|i: int| 0 <= i < r.relations@.len() ==> relation_key(#[trigger] r.relations@[i]) == relation_key(input.relations@[i]),
        r.model() == signable_model(agent_id@, *input),
{
    let tags = clone_strings(&input.tags);
    let concepts = clone_strings(&input.concepts);
    assert(views(tags@) =~= views(input.tags@));
    assert(views(concepts@) =~= views(input.concepts@));
    let mut relations: Vec<ThoughtRelation> = Vec::new();
    let mut i: usize = 0;
    while i < input.relations.len()
        invariant
            i <= input.relations@.len(),
            relations@.len() == i,
            forall|j: int| 0 <= j < i ==> relation_key(#[trigger] relations@[j]) == relation_key(input.relations@[j]),
        decreases input.relations@.len() - i,
    {
        relations.push(input.relations[i].copy());
        i = i + 1;
    }
    let r = SignableThought {
        schema_version: MENTISDB_CURRENT_VERSION,
        agent_id: String::from_str(agent_id),
        session_id: input.session_id,
        thought_type: input.thought_type,
        role: input.role,
        content: input.content.clone(),
        confidence: match input.confidence {
            Some(c) => Some(c.clamped()),
            None => None,
        },
        importance: input.importance.clamped(),
        tags: normalize_strings(tags),
        concepts: normalize_strings(concepts),
        refs: copy_refs(&input.refs),
        relations,
    };
    assert(r.relations@.map_values(|x: ThoughtRelation| relation_key(x)) =~= input.relations@.map_values(
        |x: ThoughtRelation| relation_key(x),
    ));
    r
}

} // verus!
