//! Filtered reads of the chain: the query type, what it matches, and the
//! reads that combine it with the indexes, the registry and the
//! invalidation set.
use vstd::prelude::*;
use crate::chain::{invalidated_by_chain, MentisDb};
use crate::index::{key_hits, IndexField, files_under, matching_index_positions};
use crate::kinds::{ThoughtRole, ThoughtType, lemma_role_names_distinct, lemma_type_names_distinct};
use crate::model::{clamp_unit, ChainError, Score, Thought, Timestamp, opt_view, score_ge, score_lt, ts_le, ts_lt};
use crate::positions::{intersect_sorted_positions, lemma_pick_bounds, lemma_pick_members, lemma_pick_skip, lemma_pick_skip_front, pick, strictly_sorted};
use crate::registry::{AgentRecord, AgentRegistry};
use crate::window::{overflow_message, window_bounds, window_parts, ThoughtTimeWindow};
use crate::text::{
    contains_sub, eq_ignore_ascii_case, equals_case_insensitive, str_contains, str_eq, to_lowercase,
    unicode_lower,
};

verus! {

/// A filter over thoughts. Every field that is set narrows the result; an
/// empty query matches every current thought.
pub struct ThoughtQuery {
    /// Thought types to match.
    pub thought_types: Option<Vec<ThoughtType>>,
    /// Roles to match.
    pub roles: Option<Vec<ThoughtRole>>,
    /// Agent ids to match.
    pub agent_ids: Option<Vec<String>>,
    /// Agent display names or aliases to match, ignoring ASCII case.
    pub agent_names: Option<Vec<String>>,
    /// Agent owners to match, ignoring ASCII case.
    pub agent_owners: Option<Vec<String>>,
    /// Matches when some tag contains one of these.
    pub tags_any: Vec<String>,
    /// Matches when some concept contains one of these.
    pub concepts_any: Vec<String>,
    /// Text searched in the content, agent, tags, concepts and registry record.
    pub text_contains: Option<String>,
    /// Minimum importance.
    pub min_importance: Option<Score>,
    /// Minimum confidence.
    pub min_confidence: Option<Score>,
    /// Earliest instant, inclusive.
    pub since: Option<Timestamp>,
    /// Latest instant, inclusive.
    pub until: Option<Timestamp>,
    /// Keep only the last this many matches.
    pub limit: Option<usize>,
    /// Entity type to match exactly.
    pub entity_type: Option<String>,
    /// Source episode to match exactly.
    pub source_episode: Option<String>,
    /// Also return thoughts hidden by a later correction or invalidation.
    pub include_invalidated: bool,
    /// Also return thoughts of the dream role.
    pub include_dreams: bool,
}

impl ThoughtQuery {
    /// A query that matches every current thought.
    pub fn new() -> (q: ThoughtQuery)
        ensures
            q.thought_types is None,
            q.roles is None,
            q.agent_ids is None,
            q.agent_names is None,
            q.agent_owners is None,
            q.tags_any@.len() == 0,
            q.concepts_any@.len() == 0,
            q.text_contains is None,
            q.min_importance is None,
            q.min_confidence is None,
            q.since is None,
            q.until is None,
            q.limit is None,
            q.entity_type is None,
            q.source_episode is None,
            !q.include_invalidated,
            !q.include_dreams,
    {
        ThoughtQuery {
            thought_types: None,
            roles: None,
            agent_ids: None,
            agent_names: None,
            agent_owners: None,
            tags_any: Vec::new(),
            concepts_any: Vec::new(),
            text_contains: None,
            min_importance: None,
            min_confidence: None,
            since: None,
            until: None,
            limit: None,
            entity_type: None,
            source_episode: None,
            include_invalidated: false,
            include_dreams: false,
        }
    }

    /// Restricts to these thought types.
    pub fn with_types(self, thought_types: Vec<ThoughtType>) -> (q: ThoughtQuery)
        ensures
            q == (ThoughtQuery { thought_types: Some(thought_types), ..self }),
    {
        ThoughtQuery { thought_types: Some(thought_types), ..self }
    }

    /// Restricts to these roles.
    pub fn with_roles(self, roles: Vec<ThoughtRole>) -> (q: ThoughtQuery)
        ensures
            q == (ThoughtQuery { roles: Some(roles), ..self }),
    {
        ThoughtQuery { roles: Some(roles), ..self }
    }

    /// Restricts to these agent ids.
    pub fn with_agent_ids(self, agent_ids: Vec<String>) -> (q: ThoughtQuery)
        ensures
            q == (ThoughtQuery { agent_ids: Some(agent_ids), ..self }),
    {
        ThoughtQuery { agent_ids: Some(agent_ids), ..self }
    }

    /// Restricts to agents with one of these display names or aliases.
    pub fn with_agent_names(self, agent_names: Vec<String>) -> (q: ThoughtQuery)
        ensures
            q == (ThoughtQuery { agent_names: Some(agent_names), ..self }),
    {
        ThoughtQuery { agent_names: Some(agent_names), ..self }
    }

    /// Restricts to agents with one of these owners.
    pub fn with_agent_owners(self, agent_owners: Vec<String>) -> (q: ThoughtQuery)
        ensures
            q == (ThoughtQuery { agent_owners: Some(agent_owners), ..self }),
    {
        ThoughtQuery { agent_owners: Some(agent_owners), ..self }
    }

    /// Matches thoughts with a tag that contains one of these.
    pub fn with_tags_any(self, tags: Vec<String>) -> (q: ThoughtQuery)
        ensures
            q == (ThoughtQuery { tags_any: tags, ..self }),
    {
        ThoughtQuery { tags_any: tags, ..self }
    }

    /// Matches thoughts with a concept that contains one of these.
    pub fn with_concepts_any(self, concepts: Vec<String>) -> (q: ThoughtQuery)
        ensures
            q == (ThoughtQuery { concepts_any: concepts, ..self }),
    {
        ThoughtQuery { concepts_any: concepts, ..self }
    }

    /// Searches this text.
    pub fn with_text(self, text: String) -> (q: ThoughtQuery)
        ensures
            q == (ThoughtQuery { text_contains: Some(text), ..self }),
    {
        ThoughtQuery { text_contains: Some(text), ..self }
    }

    /// Minimum importance, clamped into `[0, 1]`.
    pub fn with_min_importance(self, importance: Score) -> (q: ThoughtQuery)
        ensures
            q == (ThoughtQuery { min_importance: Some(clamp_unit(importance)), ..self }),
    {
        ThoughtQuery { min_importance: Some(Score::clamped(&importance)), ..self }
    }

    /// Minimum confidence, clamped into `[0, 1]`.
    pub fn with_min_confidence(self, confidence: Score) -> (q: ThoughtQuery)
        ensures
            q == (ThoughtQuery { min_confidence: Some(clamp_unit(confidence)), ..self }),
    {
        ThoughtQuery { min_confidence: Some(Score::clamped(&confidence)), ..self }
    }

    /// Earliest instant, inclusive.
    pub fn with_since(self, since: Timestamp) -> (q: ThoughtQuery)
        ensures
            q == (ThoughtQuery { since: Some(since), ..self }),
    {
        ThoughtQuery { since: Some(since), ..self }
    }

    /// Latest instant, inclusive.
    pub fn with_until(self, until: Timestamp) -> (q: ThoughtQuery)
        ensures
            q == (ThoughtQuery { until: Some(until), ..self }),
    {
        ThoughtQuery { until: Some(until), ..self }
    }

    /// Restricts to the instants of a time window; a window that overflows
    /// or that chrono cannot represent is refused as
    /// [`ThoughtTimeWindow::to_bounds`] refuses it.
    pub fn with_time_window(self, window: ThoughtTimeWindow) -> (r: Result<ThoughtQuery, ChainError>)
        ensures
            r is Ok <==> window_bounds(window) is Some,
            r matches Ok(q) ==> window_bounds(window) matches Some((a, b)) && q == (ThoughtQuery { since: Some(a), until: Some(b), ..self }),
            r matches Err(e) ==> (window_parts(window) is None ==> (e matches ChainError::InvalidInput(m) && m@ == overflow_message(window.unit))),
            r matches Err(e) ==> (window_parts(window) is Some ==> (e matches ChainError::InvalidInput(m) && m@
                == "time window falls outside the supported UTC timestamp range"@)),
    {
        match window.to_bounds() {
            Ok((since, until)) => Ok(ThoughtQuery { since: Some(since), until: Some(until), ..self }),
            Err(e) => Err(e),
        }
    }

    /// Keeps only the last `limit` matches.
    pub fn with_limit(self, limit: usize) -> (q: ThoughtQuery)
        ensures
            q == (ThoughtQuery { limit: Some(limit), ..self }),
    {
        ThoughtQuery { limit: Some(limit), ..self }
    }

    /// Restricts to this entity type.
    pub fn with_entity_type(self, entity_type: String) -> (q: ThoughtQuery)
        ensures
            q == (ThoughtQuery { entity_type: Some(entity_type), ..self }),
    {
        ThoughtQuery { entity_type: Some(entity_type), ..self }
    }

    /// Restricts to this source episode.
    pub fn with_source_episode(self, source_episode: String) -> (q: ThoughtQuery)
        ensures
            q == (ThoughtQuery { source_episode: Some(source_episode), ..self }),
    {
        ThoughtQuery { source_episode: Some(source_episode), ..self }
    }

    /// Whether hidden thoughts are returned too.
    pub fn with_include_invalidated(self, include_invalidated: bool) -> (q: ThoughtQuery)
        ensures
            q == (ThoughtQuery { include_invalidated, ..self }),
    {
        ThoughtQuery { include_invalidated, ..self }
    }

    /// Whether dream-role thoughts are returned too.
    pub fn with_include_dreams(self, include_dreams: bool) -> (q: ThoughtQuery)
        ensures
            q == (ThoughtQuery { include_dreams, ..self }),
    {
        ThoughtQuery { include_dreams, ..self }
    }
}

/// Whether some value, lower-cased, contains the needle lower-cased.
pub open spec fn any_contains_ci(values: Seq<String>, needle: Seq<char>) -> bool {
    exists|i: int| 0 <= i < values.len() && contains_sub(unicode_lower((#[trigger] values[i])@), unicode_lower(needle))
}

/// Whether some needle is contained, ignoring case, in one of the values.
pub open spec fn some_needle_contained(values: Seq<String>, needles: Seq<String>) -> bool {
    exists|j: int| 0 <= j < needles.len() && any_contains_ci(values, (#[trigger] needles[j])@)
}

/// Whether some value, lower-cased, equals or contains the needle lower-cased.
pub fn contains_case_insensitive(values: &[String], needle: &str) -> (r: bool)
    ensures
        r == any_contains_ci(values@, needle@),
{
    let n = to_lowercase(needle);
    let mut i: usize = 0;
    while i < values.len()
        invariant
            i <= values@.len(),
            n@ == unicode_lower(needle@),
            forall|j: int| 0 <= j < i ==> !contains_sub(unicode_lower((#[trigger] values@[j])@), n@),
        decreases values@.len() - i,
    {
        let v = to_lowercase(values[i].as_str());
        if str_eq(v.as_str(), n.as_str()) || str_contains(v.as_str(), n.as_str()) {
            proof {
                if v@ == n@ {
                    assert(v@.subrange(0, n@.len() as int) =~= n@);
                    assert(crate::text::occurs_at(v@, n@, 0));
                }
            }
            return true;
        }
        i = i + 1;
    }
    false
}

fn some_contained(values: &[String], needles: &[String]) -> (r: bool)
    ensures
        r == some_needle_contained(values@, needles@),
{
    let mut j: usize = 0;
    while j < needles.len()
        invariant
            j <= needles@.len(),
            forall|q: int| 0 <= q < j ==> !any_contains_ci(values@, (#[trigger] needles@[q])@),
        decreases needles@.len() - j,
    {
        if contains_case_insensitive(values, needles[j].as_str()) {
            return true;
        }
        j = j + 1;
    }
    false
}

/// Whether a string list holds one equal to `s`.
pub open spec fn listed(values: Seq<String>, s: Seq<char>) -> bool {
    exists|i: int| 0 <= i < values.len() && (#[trigger] values[i])@ == s
}

fn is_listed(values: &[String], s: &str) -> (r: bool)
    ensures
        r == listed(values@, s@),
{
    let mut i: usize = 0;
    while i < values.len()
        invariant
            i <= values@.len(),
            forall|j: int| 0 <= j < i ==> (#[trigger] values@[j])@ != s@,
        decreases values@.len() - i,
    {
        if str_eq(values[i].as_str(), s) {
            return true;
        }
        i = i + 1;
    }
    false
}

fn has_type(types: &[ThoughtType], t: ThoughtType) -> (r: bool)
    ensures
        r == types@.contains(t),
{
    let mut i: usize = 0;
    while i < types.len()
        invariant
            i <= types@.len(),
            forall|j: int| 0 <= j < i ==> types@[j] != t,
        decreases types@.len() - i,
    {
        if types[i] == t {
            return true;
        }
        i = i + 1;
    }
    false
}

fn has_role(roles: &[ThoughtRole], r0: ThoughtRole) -> (r: bool)
    ensures
        r == roles@.contains(r0),
{
    let mut i: usize = 0;
    while i < roles.len()
        invariant
            i <= roles@.len(),
            forall|j: int| 0 <= j < i ==> roles@[j] != r0,
        decreases roles@.len() - i,
    {
        if roles[i] == r0 {
            return true;
        }
        i = i + 1;
    }
    false
}

fn same_text(a: &Option<String>, b: &String) -> (r: bool)
    ensures
        r == (opt_view(*a) == Some(b@)),
{
    match a {
        Some(x) => str_eq(x.as_str(), b.as_str()),
        None => false,
    }
}

/// The importance, confidence and time filters: those that the indexes
/// cannot answer.
pub open spec fn post_index_match(q: ThoughtQuery, t: Thought) -> bool {
    &&& (q.min_importance matches Some(m) ==> !score_lt(t.importance, m))
    &&& (q.min_confidence matches Some(m) ==> (t.confidence matches Some(c) && score_ge(c, m)))
    &&& (q.since matches Some(s) ==> !ts_lt(t.timestamp, s))
    &&& (q.until matches Some(u) ==> !ts_lt(u, t.timestamp))
}

/// Every filter of the query that looks at the thought alone.
pub open spec fn query_match(q: ThoughtQuery, t: Thought) -> bool {
    &&& (q.thought_types matches Some(ts) ==> ts@.contains(t.thought_type))
    &&& (q.roles matches Some(rs) ==> rs@.contains(t.role))
    &&& (q.agent_ids matches Some(ids) ==> listed(ids@, t.agent_id@))
    &&& (q.entity_type matches Some(e) ==> opt_view(t.entity_type) == Some(e@))
    &&& (q.source_episode matches Some(e) ==> opt_view(t.source_episode) == Some(e@))
    &&& (q.tags_any@.len() > 0 ==> some_needle_contained(t.tags@, q.tags_any@))
    &&& (q.concepts_any@.len() > 0 ==> some_needle_contained(t.concepts@, q.concepts_any@))
    &&& post_index_match(q, t)
}

impl ThoughtQuery {
    /// The importance, confidence and time filters.
    pub fn matches_post_index_filters(&self, thought: &Thought) -> (r: bool)
        ensures
            r == post_index_match(*self, *thought),
            r ==> (self.min_importance matches Some(m) ==> !(thought.importance.rank matches Some(x) && m.rank matches Some(y)
                && x < y)),
            (self.min_importance matches Some(m) && thought.importance.rank matches Some(x) && m.rank matches Some(y) && x < y)
                ==> !r,
            r ==> (self.min_confidence matches Some(m) ==> (thought.confidence matches Some(c) && c.rank matches Some(x)
                && m.rank matches Some(y) && x >= y)),
    {
        if let Some(m) = &self.min_importance {
            if thought.importance.less_than(m) {
                return false;
            }
        }
        if let Some(m) = &self.min_confidence {
            match &thought.confidence {
                Some(c) => {
                    if !c.at_least(m) {
                        return false;
                    }
                },
                None => {
                    return false;
                },
            }
        }
        if let Some(s) = &self.since {
            if thought.timestamp.before(s) {
                return false;
            }
        }
        if let Some(u) = &self.until {
            if u.before(&thought.timestamp) {
                return false;
            }
        }
        true
    }

    /// Every filter that looks at the thought alone.
    pub fn matches(&self, thought: &Thought) -> (r: bool)
        ensures
            r == query_match(*self, *thought),
    {
        if let Some(types) = &self.thought_types {
            if !has_type(types.as_slice(), thought.thought_type) {
                return false;
            }
        }
        if let Some(roles) = &self.roles {
            if !has_role(roles.as_slice(), thought.role) {
                return false;
            }
        }
        if let Some(ids) = &self.agent_ids {
            if !is_listed(ids.as_slice(), thought.agent_id.as_str()) {
                return false;
            }
        }
        if let Some(e) = &self.entity_type {
            if !same_text(&thought.entity_type, e) {
                return false;
            }
        }
        if let Some(e) = &self.source_episode {
            if !same_text(&thought.source_episode, e) {
                return false;
            }
        }
        if self.tags_any.len() > 0 && !some_contained(thought.tags.as_slice(), self.tags_any.as_slice()) {
            return false;
        }
        if self.concepts_any.len() > 0 && !some_contained(thought.concepts.as_slice(), self.concepts_any.as_slice()) {
            return false;
        }
        self.matches_post_index_filters(thought)
    }
}

/// Whether the record's display name or one of its aliases equals one of
/// the names, ignoring ASCII case.
pub open spec fn names_match(rec: AgentRecord, names: Seq<String>) -> bool {
    exists|j: int|
        0 <= j < names.len() && (eq_ignore_ascii_case(rec.display_name@, (#[trigger] names[j])@) || exists|a: int|
            0 <= a < rec.aliases@.len() && eq_ignore_ascii_case((#[trigger] rec.aliases@[a])@, names[j]@))
}

/// Whether the record has an owner equal to one of the owners, ignoring ASCII case.
pub open spec fn owner_match(rec: AgentRecord, owners: Seq<String>) -> bool {
    rec.owner matches Some(o) && exists|j: int| 0 <= j < owners.len() && eq_ignore_ascii_case(o@, (#[trigger] owners[j])@)
}

/// Whether the lower-cased needle occurs in the record's display name,
/// owner, an alias or the description, each lower-cased.
pub open spec fn record_mentions(rec: AgentRecord, needle: Seq<char>) -> bool {
    ||| contains_sub(unicode_lower(rec.display_name@), needle)
    ||| (rec.owner matches Some(o) && contains_sub(unicode_lower(o@), needle))
    ||| (exists|a: int| 0 <= a < rec.aliases@.len() && contains_sub(unicode_lower((#[trigger] rec.aliases@[a])@), needle))
    ||| (rec.description matches Some(d) && contains_sub(unicode_lower(d@), needle))
}

/// Whether the lower-cased needle occurs in the thought's content, agent
/// id, a tag or a concept, each lower-cased.
pub open spec fn thought_mentions(t: Thought, needle: Seq<char>) -> bool {
    ||| contains_sub(unicode_lower(t.content@), needle)
    ||| contains_sub(unicode_lower(t.agent_id@), needle)
    ||| (exists|i: int| 0 <= i < t.tags@.len() && contains_sub(unicode_lower((#[trigger] t.tags@[i])@), needle))
    ||| (exists|i: int| 0 <= i < t.concepts@.len() && contains_sub(unicode_lower((#[trigger] t.concepts@[i])@), needle))
}

/// Whether the registry holds a record for `id` whose names match.
pub open spec fn registered_with_name(reg: AgentRegistry, id: Seq<char>, names: Seq<String>) -> bool {
    exists|i: int| 0 <= i < reg.agents@.len() && (#[trigger] reg.agents@[i]).agent_id@ == id && names_match(reg.agents@[i], names)
}

/// Whether the registry holds a record for `id` whose owner matches.
pub open spec fn registered_with_owner(reg: AgentRegistry, id: Seq<char>, owners: Seq<String>) -> bool {
    exists|i: int| 0 <= i < reg.agents@.len() && (#[trigger] reg.agents@[i]).agent_id@ == id && owner_match(reg.agents@[i], owners)
}

/// Whether the registry holds a record for `id` that mentions the needle.
pub open spec fn registered_mentioning(reg: AgentRegistry, id: Seq<char>, needle: Seq<char>) -> bool {
    exists|i: int| 0 <= i < reg.agents@.len() && (#[trigger] reg.agents@[i]).agent_id@ == id && record_mentions(reg.agents@[i], needle)
}

/// The filters answered from the agent registry: names, owners and text.
pub open spec fn registry_match(reg: AgentRegistry, q: ThoughtQuery, t: Thought) -> bool {
    &&& (q.agent_names matches Some(ns) ==> registered_with_name(reg, t.agent_id@, ns@))
    &&& (q.agent_owners matches Some(os) ==> registered_with_owner(reg, t.agent_id@, os@))
    &&& (q.text_contains matches Some(x) ==> (registered_mentioning(reg, t.agent_id@, unicode_lower(x@))
        || thought_mentions(t, unicode_lower(x@))))
}

/// In a well-formed registry no two records share an id.
pub proof fn lemma_registry_ids_unique(reg: AgentRegistry, i: int, j: int)
    requires
        reg.wf(),
        0 <= i < reg.agents@.len(),
        0 <= j < reg.agents@.len(),
        reg.agents@[i].agent_id@ == reg.agents@[j].agent_id@,
    ensures
        i == j,
{
    if i < j {
        assert(crate::text::lex_lt(reg.agents@[i].agent_id@, reg.agents@[j].agent_id@));
        crate::text::lemma_lex_lt_irreflexive(reg.agents@[i].agent_id@);
    } else if j < i {
        assert(crate::text::lex_lt(reg.agents@[j].agent_id@, reg.agents@[i].agent_id@));
        crate::text::lemma_lex_lt_irreflexive(reg.agents@[i].agent_id@);
    }
}

/// Whether one of these strings equals `value`, ignoring ASCII case.
fn any_equal_ci(values: &[String], value: &str) -> (r: bool)
    ensures
        r == exists|j: int| 0 <= j < values@.len() && eq_ignore_ascii_case(value@, (#[trigger] values@[j])@),
{
    let mut j: usize = 0;
    while j < values.len()
        invariant
            j <= values@.len(),
            forall|q: int| 0 <= q < j ==> !eq_ignore_ascii_case(value@, (#[trigger] values@[q])@),
        decreases values@.len() - j,
    {
        if equals_case_insensitive(value, values[j].as_str()) {
            return true;
        }
        j = j + 1;
    }
    false
}

/// Whether a record's display name or an alias matches one of the names.
pub fn record_names_match(rec: &AgentRecord, names: &[String]) -> (r: bool)
    ensures
        r == names_match(*rec, names@),
{
    let mut j: usize = 0;
    while j < names.len()
        invariant
            j <= names@.len(),
            forall|q: int|
                0 <= q < j ==> !(eq_ignore_ascii_case(rec.display_name@, (#[trigger] names@[q])@) || exists|a: int|
                    0 <= a < rec.aliases@.len() && eq_ignore_ascii_case((#[trigger] rec.aliases@[a])@, names@[q]@)),
        decreases names@.len() - j,
    {
        if equals_case_insensitive(rec.display_name.as_str(), names[j].as_str()) {
            return true;
        }
        let mut a: usize = 0;
        while a < rec.aliases.len()
            invariant
                j < names@.len(),
                a <= rec.aliases@.len(),
                forall|b: int| 0 <= b < a ==> !eq_ignore_ascii_case((#[trigger] rec.aliases@[b])@, names@[j as int]@),
            decreases rec.aliases@.len() - a,
        {
            if equals_case_insensitive(rec.aliases[a].as_str(), names[j].as_str()) {
                return true;
            }
            a = a + 1;
        }
        j = j + 1;
    }
    false
}

/// Whether a record's owner matches one of the owners.
pub fn record_owner_match(rec: &AgentRecord, owners: &[String]) -> (r: bool)
    ensures
        r == owner_match(*rec, owners@),
{
    match &rec.owner {
        Some(o) => any_equal_ci(owners, o.as_str()),
        None => false,
    }
}

fn lowered_contains(s: &str, needle: &str) -> (r: bool)
    ensures
        r == contains_sub(unicode_lower(s@), needle@),
{
    let l = to_lowercase(s);
    str_contains(l.as_str(), needle)
}

fn any_lowered_contains(values: &[String], needle: &str) -> (r: bool)
    ensures
        r == exists|i: int| 0 <= i < values@.len() && contains_sub(unicode_lower((#[trigger] values@[i])@), needle@),
{
    let mut i: usize = 0;
    while i < values.len()
        invariant
            i <= values@.len(),
            forall|j: int| 0 <= j < i ==> !contains_sub(unicode_lower((#[trigger] values@[j])@), needle@),
        decreases values@.len() - i,
    {
        if lowered_contains(values[i].as_str(), needle) {
            return true;
        }
        i = i + 1;
    }
    false
}

/// Whether the record mentions the (already lower-cased) needle.
pub fn record_mentions_text(rec: &AgentRecord, needle: &str) -> (r: bool)
    ensures
        r == record_mentions(*rec, needle@),
{
    if lowered_contains(rec.display_name.as_str(), needle) {
        return true;
    }
    if let Some(o) = &rec.owner {
        if lowered_contains(o.as_str(), needle) {
            return true;
        }
    }
    if any_lowered_contains(rec.aliases.as_slice(), needle) {
        return true;
    }
    if let Some(d) = &rec.description {
        if lowered_contains(d.as_str(), needle) {
            return true;
        }
    }
    false
}

/// Whether the thought mentions the (already lower-cased) needle.
pub fn thought_mentions_text(t: &Thought, needle: &str) -> (r: bool)
    ensures
        r == thought_mentions(*t, needle@),
{
    lowered_contains(t.content.as_str(), needle) || lowered_contains(t.agent_id.as_str(), needle)
        || any_lowered_contains(t.tags.as_slice(), needle) || any_lowered_contains(t.concepts.as_slice(), needle)
}

/// The registry filters of a query for one thought.
pub fn query_matches_registry(reg: &AgentRegistry, thought: &Thought, query: &ThoughtQuery) -> (r: bool)
    requires
        reg.wf(),
    ensures
        r == registry_match(*reg, *query, *thought),
{
    let rec = reg.get(thought.agent_id.as_str());
    let ghost id = thought.agent_id@;
    proof {
        if let Some(rc) = rec {
            let k = choose|k: int| 0 <= k < reg.agents@.len() && reg.agents@[k] == *rc;
            assert forall|i: int| 0 <= i < reg.agents@.len() && (#[trigger] reg.agents@[i]).agent_id@ == id implies reg.agents@[i] == *rc by {
                lemma_registry_ids_unique(*reg, i, k);
            }
        } else {
            assert forall|i: int| 0 <= i < reg.agents@.len() implies (#[trigger] reg.agents@[i]).agent_id@ != id by {}
        }
    }
    if let Some(names) = &query.agent_names {
        match rec {
            Some(rc) => {
                if !record_names_match(rc, names.as_slice()) {
                    return false;
                }
            },
            None => {
                return false;
            },
        }
    }
    if let Some(owners) = &query.agent_owners {
        match rec {
            Some(rc) => {
                if !record_owner_match(rc, owners.as_slice()) {
                    return false;
                }
            },
            None => {
                return false;
            },
        }
    }
    if let Some(text) = &query.text_contains {
        let needle = to_lowercase(text.as_str());
        let in_record = match rec {
            Some(rc) => record_mentions_text(rc, needle.as_str()),
            None => false,
        };
        if !in_record && !thought_mentions_text(thought, needle.as_str()) {
            return false;
        }
    }
    true
}

/// Whether the query narrows its candidates through the indexes.
pub open spec fn uses_index(q: ThoughtQuery) -> bool {
    ||| q.thought_types is Some
    ||| q.roles is Some
    ||| q.agent_ids is Some
    ||| q.tags_any@.len() > 0
    ||| q.concepts_any@.len() > 0
    ||| q.agent_names is Some
    ||| q.agent_owners is Some
}

/// Whether some tag of the list, lower-cased, is hit by one of the needles
/// as the index matches them.
pub open spec fn some_key_hit(values: Seq<String>, needles: Seq<String>) -> bool {
    exists|i: int| 0 <= i < values.len() && key_hits(unicode_lower((#[trigger] values[i])@), needles)
}

/// The type filter.
pub open spec fn type_filter(q: ThoughtQuery, t: Thought) -> bool {
    q.thought_types matches Some(ts) ==> ts@.contains(t.thought_type)
}

/// The role filter.
pub open spec fn role_filter(q: ThoughtQuery, t: Thought) -> bool {
    q.roles matches Some(rs) ==> rs@.contains(t.role)
}

/// The agent id filter.
pub open spec fn id_filter(q: ThoughtQuery, t: Thought) -> bool {
    q.agent_ids matches Some(ids) ==> listed(ids@, t.agent_id@)
}

/// The tag filter, as the tag index answers it.
pub open spec fn tag_index_filter(q: ThoughtQuery, t: Thought) -> bool {
    q.tags_any@.len() > 0 ==> some_key_hit(t.tags@, q.tags_any@)
}

/// The concept filter, as the concept index answers it.
pub open spec fn concept_index_filter(q: ThoughtQuery, t: Thought) -> bool {
    q.concepts_any@.len() > 0 ==> some_key_hit(t.concepts@, q.concepts_any@)
}

/// The agent name filter, as the registry answers it.
pub open spec fn name_filter(reg: AgentRegistry, q: ThoughtQuery, t: Thought) -> bool {
    q.agent_names matches Some(ns) ==> registered_with_name(reg, t.agent_id@, ns@)
}

/// The agent owner filter, as the registry answers it.
pub open spec fn owner_filter(reg: AgentRegistry, q: ThoughtQuery, t: Thought) -> bool {
    q.agent_owners matches Some(os) ==> registered_with_owner(reg, t.agent_id@, os@)
}

/// Every filter that the indexes answer. Tags and concepts are matched as
/// the indexes hold them: a needle is trimmed and lower-cased, empty
/// needles are dropped, and a lower-cased tag must contain one of the rest.
pub open spec fn index_match(q: ThoughtQuery, reg: AgentRegistry, t: Thought) -> bool {
    &&& type_filter(q, t)
    &&& role_filter(q, t)
    &&& id_filter(q, t)
    &&& tag_index_filter(q, t)
    &&& concept_index_filter(q, t)
    &&& name_filter(reg, q, t)
    &&& owner_filter(reg, q, t)
}

/// Whether the thought is returned by default or the query asks for it:
/// hidden thoughts and dreams are left out unless requested.
pub open spec fn visible(thoughts: Seq<Thought>, q: ThoughtQuery, t: Thought) -> bool {
    &&& (q.include_invalidated || !invalidated_by_chain(thoughts, t.id))
    &&& (q.include_dreams || t.role != ThoughtRole::Dream)
}

/// Whether the query selects the thought at position `p`. When indexes
/// narrow the candidates, the entity type and source episode filters are
/// not applied and tags and concepts are matched as the indexes hold them.
pub open spec fn selects(thoughts: Seq<Thought>, reg: AgentRegistry, q: ThoughtQuery, p: int) -> bool {
    let t = thoughts[p];
    &&& visible(thoughts, q, t)
    &&& if uses_index(q) {
        index_match(q, reg, t) && post_index_match(q, t) && registry_match(reg, q, t)
    } else {
        query_match(q, t) && registry_match(reg, q, t)
    }
}

/// The positions in `lo..hi` that the query selects, in increasing order.
pub open spec fn select_range(thoughts: Seq<Thought>, reg: AgentRegistry, q: ThoughtQuery, lo: int, hi: int) -> Seq<usize> {
    pick(|p: int| selects(thoughts, reg, q, p), lo, hi)
}

/// A limit keeps the newest matching tail: what a query with a limit
/// returns is the last `limit` of what the same query returns without one,
/// in append order.
pub proof fn lemma_limit_keeps_tail(thoughts: Seq<Thought>, reg: AgentRegistry, q: ThoughtQuery)
    ensures
        query_positions_spec(thoughts, reg, q) == keep_last(
            query_positions_spec(thoughts, reg, ThoughtQuery { limit: None, ..q }),
            q.limit,
        ),
{
    let u = ThoughtQuery { limit: None, ..q };
    let pq = |p: int| selects(thoughts, reg, q, p);
    let pu = |p: int| selects(thoughts, reg, u, p);
    assert forall|p: int| #[trigger] pq(p) == pu(p) by {}
    assert(pq =~= pu);
    assert(since_index(q, thoughts) == since_index(u, thoughts));
    assert(until_index(q, thoughts) == until_index(u, thoughts));
}

/// A query returns positions of the chain in strictly increasing order:
/// append order, with no position twice.
pub proof fn lemma_query_positions_increasing(thoughts: Seq<Thought>, reg: AgentRegistry, q: ThoughtQuery)
    requires
        thoughts.len() <= usize::MAX,
    ensures
        strictly_sorted(query_positions_spec(thoughts, reg, q)),
        forall|j: int| 0 <= j < query_positions_spec(thoughts, reg, q).len() ==> #[trigger] query_positions_spec(thoughts, reg, q)[j] < thoughts.len(),
{
    lemma_index_points(q, thoughts);
    let e = until_index(q, thoughts);
    let st = min_int(since_index(q, thoughts), e);
    let pred = |p: int| selects(thoughts, reg, q, p);
    lemma_pick_bounds(pred, st, e);
    let full = select_range(thoughts, reg, q, st, e);
    let ps = query_positions_spec(thoughts, reg, q);
    match q.limit {
        Some(l) => {
            if full.len() > l {
                assert forall|i: int, j: int| 0 <= i < j < ps.len() implies ps[i] < ps[j] by {
                    assert(ps[i] == full[full.len() - l + i]);
                    assert(ps[j] == full[full.len() - l + j]);
                }
                assert forall|j: int| 0 <= j < ps.len() implies #[trigger] ps[j] < thoughts.len() by {
                    assert(ps[j] == full[full.len() - l + j]);
                }
            }
        },
        None => {},
    }
}

/// Whether `ps` is what the query returns: the selected positions within
/// a candidate range found by binary search, of which a limit keeps the last.
pub open spec fn query_result(thoughts: Seq<Thought>, reg: AgentRegistry, q: ThoughtQuery, ps: Seq<usize>) -> bool {
    ps == query_positions_spec(thoughts, reg, q)
}

/// The positions a query returns: the selected positions of its candidate
/// range, in append order, the last `limit` of them when it has a limit.
pub open spec fn query_positions_spec(thoughts: Seq<Thought>, reg: AgentRegistry, q: ThoughtQuery) -> Seq<usize> {
    let e = until_index(q, thoughts);
    keep_last(select_range(thoughts, reg, q, min_int(since_index(q, thoughts), e), e), q.limit)
}

/// The last `limit` elements, or all of them.
pub open spec fn keep_last(s: Seq<usize>, limit: Option<usize>) -> Seq<usize> {
    match limit {
        Some(l) => if s.len() > l {
            s.subrange(s.len() - l, s.len() as int)
        } else {
            s
        },
        None => s,
    }
}

/// Whether `x` is where the thoughts earlier than `since` end, as a binary
/// search finds it: the thought before it is earlier, the one at it is not.
pub open spec fn before_point(thoughts: Seq<Thought>, since: Timestamp, x: int) -> bool {
    &&& 0 <= x <= thoughts.len()
    &&& (x == 0 || ts_lt(thoughts[x - 1].timestamp, since))
    &&& (x == thoughts.len() || !ts_lt(thoughts[x].timestamp, since))
}

/// Whether `x` is where the thoughts not later than `until` end, as a
/// binary search finds it.
pub open spec fn not_after_point(thoughts: Seq<Thought>, until: Timestamp, x: int) -> bool {
    &&& 0 <= x <= thoughts.len()
    &&& (x == 0 || ts_le(thoughts[x - 1].timestamp, until))
    &&& (x == thoughts.len() || !ts_le(thoughts[x].timestamp, until))
}

/// The start of the candidate range before it is capped by its end.
pub open spec fn since_point(q: ThoughtQuery, thoughts: Seq<Thought>, a: int) -> bool {
    match q.since {
        Some(x) => before_point(thoughts, x, a),
        None => a == 0,
    }
}

/// The end of the candidate range.
pub open spec fn until_point(q: ThoughtQuery, thoughts: Seq<Thought>, e: int) -> bool {
    match q.until {
        Some(u) => not_after_point(thoughts, u, e),
        None => e == thoughts.len(),
    }
}

/// The smaller of two integers.
pub open spec fn min_int(a: int, b: int) -> int {
    if a < b {
        a
    } else {
        b
    }
}

/// Whether the thoughts' instants never decrease along the chain.
pub open spec fn timestamps_sorted(thoughts: Seq<Thought>) -> bool {
    forall|i: int, j: int| 0 <= i < j < thoughts.len() ==> ts_le(#[trigger] thoughts[i].timestamp, #[trigger] thoughts[j].timestamp)
}

/// Where a binary search over `lo..hi` finds the end of the thoughts
/// earlier than `since`: it halves the range, going right past an earlier
/// thought and left otherwise.
pub open spec fn search_before(thoughts: Seq<Thought>, since: Timestamp, lo: int, hi: int) -> int
    decreases hi - lo,
{
    if lo >= hi || lo < 0 || hi > thoughts.len() {
        lo
    } else {
        let mid = lo + (hi - lo) / 2;
        if ts_lt(thoughts[mid].timestamp, since) {
            search_before(thoughts, since, mid + 1, hi)
        } else {
            search_before(thoughts, since, lo, mid)
        }
    }
}

/// Where a binary search over `lo..hi` finds the end of the thoughts not
/// later than `until`.
pub open spec fn search_not_after(thoughts: Seq<Thought>, until: Timestamp, lo: int, hi: int) -> int
    decreases hi - lo,
{
    if lo >= hi || lo < 0 || hi > thoughts.len() {
        lo
    } else {
        let mid = lo + (hi - lo) / 2;
        if ts_le(thoughts[mid].timestamp, until) {
            search_not_after(thoughts, until, mid + 1, hi)
        } else {
            search_not_after(thoughts, until, lo, mid)
        }
    }
}

/// Where the candidate range of a query starts, before it is capped by its
/// end: the binary-search point for `since`, or zero.
pub open spec fn since_index(q: ThoughtQuery, thoughts: Seq<Thought>) -> int {
    match q.since {
        Some(x) => search_before(thoughts, x, 0, thoughts.len() as int),
        None => 0,
    }
}

/// Where the candidate range of a query ends: the binary-search point for
/// `until`, or the length of the chain.
pub open spec fn until_index(q: ThoughtQuery, thoughts: Seq<Thought>) -> int {
    match q.until {
        Some(u) => search_not_after(thoughts, u, 0, thoughts.len() as int),
        None => thoughts.len() as int,
    }
}

proof fn lemma_search_before(thoughts: Seq<Thought>, since: Timestamp, lo: int, hi: int)
    requires
        0 <= lo <= hi <= thoughts.len(),
        lo == 0 || ts_lt(thoughts[lo - 1].timestamp, since),
        hi == thoughts.len() || !ts_lt(thoughts[hi].timestamp, since),
    ensures
        before_point(thoughts, since, search_before(thoughts, since, lo, hi)),
    decreases hi - lo,
{
    if lo < hi {
        let mid = lo + (hi - lo) / 2;
        if ts_lt(thoughts[mid].timestamp, since) {
            lemma_search_before(thoughts, since, mid + 1, hi);
        } else {
            lemma_search_before(thoughts, since, lo, mid);
        }
    }
}

proof fn lemma_search_not_after(thoughts: Seq<Thought>, until: Timestamp, lo: int, hi: int)
    requires
        0 <= lo <= hi <= thoughts.len(),
        lo == 0 || ts_le(thoughts[lo - 1].timestamp, until),
        hi == thoughts.len() || !ts_le(thoughts[hi].timestamp, until),
    ensures
        not_after_point(thoughts, until, search_not_after(thoughts, until, lo, hi)),
    decreases hi - lo,
{
    if lo < hi {
        let mid = lo + (hi - lo) / 2;
        if ts_le(thoughts[mid].timestamp, until) {
            lemma_search_not_after(thoughts, until, mid + 1, hi);
        } else {
            lemma_search_not_after(thoughts, until, lo, mid);
        }
    }
}

/// The binary-search points are the points the candidate range is
/// described by.
pub proof fn lemma_index_points(q: ThoughtQuery, thoughts: Seq<Thought>)
    ensures
        since_point(q, thoughts, since_index(q, thoughts)),
        until_point(q, thoughts, until_index(q, thoughts)),
{
    if let Some(x) = q.since {
        lemma_search_before(thoughts, x, 0, thoughts.len() as int);
    }
    if let Some(u) = q.until {
        lemma_search_not_after(thoughts, u, 0, thoughts.len() as int);
    }
}

fn partition_before(thoughts: &[Thought], since: &Timestamp) -> (r: usize)
    ensures
        before_point(thoughts@, *since, r as int),
        r == search_before(thoughts@, *since, 0, thoughts@.len() as int),
{
    let mut lo: usize = 0;
    let mut hi: usize = thoughts.len();
    while lo < hi
        invariant
            lo <= hi <= thoughts@.len(),
            lo == 0 || ts_lt(thoughts@[lo - 1].timestamp, *since),
            hi == thoughts@.len() || !ts_lt(thoughts@[hi as int].timestamp, *since),
            search_before(thoughts@, *since, lo as int, hi as int) == search_before(thoughts@, *since, 0, thoughts@.len() as int),
        decreases hi - lo,
    {
        let mid = lo + (hi - lo) / 2;
        if thoughts[mid].timestamp.before(since) {
            lo = mid + 1;
        } else {
            hi = mid;
        }
    }
    lo
}

fn partition_not_after(thoughts: &[Thought], until: &Timestamp) -> (r: usize)
    ensures
        not_after_point(thoughts@, *until, r as int),
        r == search_not_after(thoughts@, *until, 0, thoughts@.len() as int),
{
    let mut lo: usize = 0;
    let mut hi: usize = thoughts.len();
    while lo < hi
        invariant
            lo <= hi <= thoughts@.len(),
            lo == 0 || ts_le(thoughts@[lo - 1].timestamp, *until),
            hi == thoughts@.len() || !ts_le(thoughts@[hi as int].timestamp, *until),
            search_not_after(thoughts@, *until, lo as int, hi as int) == search_not_after(thoughts@, *until, 0, thoughts@.len() as int),
        decreases hi - lo,
    {
        let mid = lo + (hi - lo) / 2;
        if thoughts[mid].timestamp.not_after(until) {
            lo = mid + 1;
        } else {
            hi = mid;
        }
    }
    lo
}

impl ThoughtQuery {
    /// The range of positions worth scanning: from where the thoughts
    /// earlier than `since` end to where those not later than `until` end,
    /// each found by binary search (exact when the instants are sorted).
    pub fn candidate_position_bounds(&self, thoughts: &[Thought]) -> (r: (usize, usize))
        ensures
            until_point(*self, thoughts@, r.1 as int),
            exists|a: int| #[trigger] since_point(*self, thoughts@, a) && r.0 == min_int(a, r.1 as int),
            r.1 == until_index(*self, thoughts@),
            r.0 == min_int(since_index(*self, thoughts@), r.1 as int),
    {
        let start = match &self.since {
            Some(s) => partition_before(thoughts, s),
            None => 0,
        };
        let end = match &self.until {
            Some(u) => partition_not_after(thoughts, u),
            None => thoughts.len(),
        };
        assert(since_point(*self, thoughts@, start as int));
        (if start < end { start } else { end }, end)
    }
}

/// Leaving out positions the query does not select changes nothing.
proof fn lemma_select_skip(thoughts: Seq<Thought>, reg: AgentRegistry, q: ThoughtQuery, lo: int, a: int, b: int)
    requires
        lo <= a <= b,
        forall|p: int| a <= p < b ==> !#[trigger] selects(thoughts, reg, q, p),
    ensures
        select_range(thoughts, reg, q, lo, b) == select_range(thoughts, reg, q, lo, a),
{
    lemma_pick_skip(|p: int| selects(thoughts, reg, q, p), lo, a, b);
}

/// Starting later, past positions the query does not select, changes nothing.
proof fn lemma_select_skip_front(thoughts: Seq<Thought>, reg: AgentRegistry, q: ThoughtQuery, lo: int, s: int, hi: int)
    requires
        lo <= s <= hi,
        forall|p: int| lo <= p < s ==> !#[trigger] selects(thoughts, reg, q, p),
    ensures
        select_range(thoughts, reg, q, lo, hi) == select_range(thoughts, reg, q, s, hi),
{
    lemma_pick_skip_front(|p: int| selects(thoughts, reg, q, p), lo, s, hi);
}

/// When the instants are sorted, the candidate range holds every position
/// the query can select, so the range does not change the result.
pub proof fn lemma_sorted_bounds_exact(thoughts: Seq<Thought>, reg: AgentRegistry, q: ThoughtQuery, a: int, e: int)
    requires
        timestamps_sorted(thoughts),
        since_point(q, thoughts, a),
        until_point(q, thoughts, e),
    ensures
        select_range(thoughts, reg, q, min_int(a, e), e) == select_range(thoughts, reg, q, 0, thoughts.len() as int),
{
    let s = min_int(a, e);
    assert forall|p: int| 0 <= p < s implies !#[trigger] selects(thoughts, reg, q, p) by {
        if let Some(x) = q.since {
            assert(ts_le(thoughts[p].timestamp, thoughts[a - 1].timestamp) || p == a - 1);
        }
    }
    assert forall|p: int| e <= p < thoughts.len() implies !#[trigger] selects(thoughts, reg, q, p) by {
        if let Some(u) = q.until {
            assert(ts_le(thoughts[e].timestamp, thoughts[p].timestamp) || p == e);
        }
    }
    lemma_select_skip(thoughts, reg, q, 0, e, thoughts.len() as int);
    lemma_select_skip_front(thoughts, reg, q, 0, s, e);
}

fn type_names(types: &[ThoughtType]) -> (r: Vec<String>)
    ensures
        r@.len() == types@.len(),
        forall|j: int| 0 <= j < types@.len() ==> (#[trigger] r@[j])@ == types@[j].name(),
{
    let mut r: Vec<String> = Vec::new();
    let mut j: usize = 0;
    while j < types.len()
        invariant
            j <= types@.len(),
            r@.len() == j,
            forall|q: int| 0 <= q < j ==> (#[trigger] r@[q])@ == types@[q].name(),
        decreases types@.len() - j,
    {
        r.push(String::from_str(types[j].as_str()));
        j = j + 1;
    }
    r
}

fn role_names(roles: &[ThoughtRole]) -> (r: Vec<String>)
    ensures
        r@.len() == roles@.len(),
        forall|j: int| 0 <= j < roles@.len() ==> (#[trigger] r@[j])@ == roles@[j].name(),
{
    let mut r: Vec<String> = Vec::new();
    let mut j: usize = 0;
    while j < roles.len()
        invariant
            j <= roles@.len(),
            r@.len() == j,
            forall|q: int| 0 <= q < j ==> (#[trigger] r@[q])@ == roles@[q].name(),
        decreases roles@.len() - j,
    {
        r.push(String::from_str(roles[j].debug_name()));
        j = j + 1;
    }
    r
}

/// Narrows an optional candidate list by one more sorted list.
fn narrow(acc: Option<Vec<usize>>, f: Vec<usize>) -> (r: Option<Vec<usize>>)
    requires
        strictly_sorted(f@),
        acc matches Some(a) ==> strictly_sorted(a@),
    ensures
        r matches Some(v) && strictly_sorted(v@) && forall|p: usize| #[trigger] v@.contains(p) <==> (f@.contains(p) && (acc matches Some(a) ==> a@.contains(p))),
{
    match acc {
        Some(a) => Some(intersect_sorted_positions(a.as_slice(), f.as_slice())),
        None => Some(f),
    }
}

/// The ids of the registered agents whose names match.
fn agent_ids_named(reg: &AgentRegistry, names: &[String]) -> (r: Vec<String>)
    ensures
        forall|id: Seq<char>| #[trigger] listed(r@, id) <==> exists|i: int|
            0 <= i < reg.agents@.len() && (#[trigger] reg.agents@[i]).agent_id@ == id && names_match(reg.agents@[i], names@),
{
    let mut r: Vec<String> = Vec::new();
    let mut i: usize = 0;
    while i < reg.agents.len()
        invariant
            i <= reg.agents@.len(),
            forall|id: Seq<char>| #[trigger] listed(r@, id) <==> exists|k: int|
                0 <= k < i && (#[trigger] reg.agents@[k]).agent_id@ == id && names_match(reg.agents@[k], names@),
        decreases reg.agents@.len() - i,
    {
        let ghost before = r@;
        if record_names_match(&reg.agents[i], names) {
            r.push(reg.agents[i].agent_id.clone());
        }
        proof {
            assert forall|id: Seq<char>| #[trigger] listed(r@, id) <==> exists|k: int|
                0 <= k < i + 1 && (#[trigger] reg.agents@[k]).agent_id@ == id && names_match(reg.agents@[k], names@) by {
                if listed(r@, id) {
                    let m = choose|m: int| 0 <= m < r@.len() && (#[trigger] r@[m])@ == id;
                    if m < before.len() {
                        assert(before[m] == r@[m]);
                        assert(listed(before, id));
                    }
                }
                if exists|k: int| 0 <= k < i + 1 && (#[trigger] reg.agents@[k]).agent_id@ == id && names_match(reg.agents@[k], names@) {
                    let k = choose|k: int| 0 <= k < i + 1 && (#[trigger] reg.agents@[k]).agent_id@ == id && names_match(reg.agents@[k], names@);
                    if k < i {
                        assert(listed(before, id));
                        let m = choose|m: int| 0 <= m < before.len() && (#[trigger] before[m])@ == id;
                        assert(r@[m] == before[m]);
                    } else {
                        assert(r@[before.len() as int]@ == id);
                    }
                }
            }
        }
        i = i + 1;
    }
    r
}

/// The ids of the registered agents whose owner matches.
fn agent_ids_owned(reg: &AgentRegistry, owners: &[String]) -> (r: Vec<String>)
    ensures
        forall|id: Seq<char>| #[trigger] listed(r@, id) <==> exists|i: int|
            0 <= i < reg.agents@.len() && (#[trigger] reg.agents@[i]).agent_id@ == id && owner_match(reg.agents@[i], owners@),
{
    let mut r: Vec<String> = Vec::new();
    let mut i: usize = 0;
    while i < reg.agents.len()
        invariant
            i <= reg.agents@.len(),
            forall|id: Seq<char>| #[trigger] listed(r@, id) <==> exists|k: int|
                0 <= k < i && (#[trigger] reg.agents@[k]).agent_id@ == id && owner_match(reg.agents@[k], owners@),
        decreases reg.agents@.len() - i,
    {
        let ghost before = r@;
        if record_owner_match(&reg.agents[i], owners) {
            r.push(reg.agents[i].agent_id.clone());
        }
        proof {
            assert forall|id: Seq<char>| #[trigger] listed(r@, id) <==> exists|k: int|
                0 <= k < i + 1 && (#[trigger] reg.agents@[k]).agent_id@ == id && owner_match(reg.agents@[k], owners@) by {
                if listed(r@, id) {
                    let m = choose|m: int| 0 <= m < r@.len() && (#[trigger] r@[m])@ == id;
                    if m < before.len() {
                        assert(before[m] == r@[m]);
                        assert(listed(before, id));
                    }
                }
                if exists|k: int| 0 <= k < i + 1 && (#[trigger] reg.agents@[k]).agent_id@ == id && owner_match(reg.agents@[k], owners@) {
                    let k = choose|k: int| 0 <= k < i + 1 && (#[trigger] reg.agents@[k]).agent_id@ == id && owner_match(reg.agents@[k], owners@);
                    if k < i {
                        assert(listed(before, id));
                        let m = choose|m: int| 0 <= m < before.len() && (#[trigger] before[m])@ == id;
                        assert(r@[m] == before[m]);
                    } else {
                        assert(r@[before.len() as int]@ == id);
                    }
                }
            }
        }
        i = i + 1;
    }
    r
}

impl MentisDb {
    /// The positions that the indexes admit for the query, sorted: `None`
    /// when the query sets no indexed filter.
    pub fn indexed_candidate_positions(&self, query: &ThoughtQuery) -> (r: Option<Vec<usize>>)
        requires
            self.wf(),
        ensures
            r is Some <==> uses_index(*query),
            r matches Some(v) ==> strictly_sorted(v@) && forall|p: usize| #[trigger] v@.contains(p) <==> (p < self.spec_thoughts().len()
                && index_match(*query, self.spec_agents(), self.spec_thoughts()[p as int])),
    {
        proof {
            self.lemma_fields();
        }
        let ghost th = self.spec_thoughts();
        let ghost reg = self.spec_agents();
        let ghost q = *query;
        let ix = &self.query_indexes;
        let mut acc: Option<Vec<usize>> = None;
        if let Some(types) = &query.thought_types {
            let keys = type_names(types.as_slice());
            let f = ix.by_thought_type.positions_for_keys(keys.as_slice(), Ghost(IndexField::ThoughtType), Ghost(th));
            proof {
                assert forall|p: usize| f@.contains(p) <==> (p < th.len() && type_filter(q, th[p as int])) by {
                    if p < th.len() {
                        if exists|j: int| 0 <= j < keys@.len() && files_under(IndexField::ThoughtType, th[p as int], (#[trigger] keys@[j])@) {
                            let j = choose|j: int| 0 <= j < keys@.len() && files_under(IndexField::ThoughtType, th[p as int], (#[trigger] keys@[j])@);
                            lemma_type_names_distinct(th[p as int].thought_type, types@[j]);
                            assert(types@[j] == th[p as int].thought_type);
                        }
                        if types@.contains(th[p as int].thought_type) {
                            let j = choose|j: int| 0 <= j < types@.len() && types@[j] == th[p as int].thought_type;
                            assert(files_under(IndexField::ThoughtType, th[p as int], keys@[j]@));
                        }
                    }
                }
            }
            acc = narrow(acc, f);
        }
        let ghost acc1 = acc;
        assert(acc1 is Some <==> q.thought_types is Some);
        assert(acc1 matches Some(v) ==> forall|p: usize| #[trigger] v@.contains(p) <==> (p < th.len() && type_filter(q, th[p as int])));
        if let Some(roles) = &query.roles {
            let keys = role_names(roles.as_slice());
            let f = ix.by_role.positions_for_keys(keys.as_slice(), Ghost(IndexField::Role), Ghost(th));
            proof {
                assert forall|p: usize| f@.contains(p) <==> (p < th.len() && role_filter(q, th[p as int])) by {
                    if p < th.len() {
                        if exists|j: int| 0 <= j < keys@.len() && files_under(IndexField::Role, th[p as int], (#[trigger] keys@[j])@) {
                            let j = choose|j: int| 0 <= j < keys@.len() && files_under(IndexField::Role, th[p as int], (#[trigger] keys@[j])@);
                            lemma_role_names_distinct(th[p as int].role, roles@[j]);
                            assert(roles@[j] == th[p as int].role);
                        }
                        if roles@.contains(th[p as int].role) {
                            let j = choose|j: int| 0 <= j < roles@.len() && roles@[j] == th[p as int].role;
                            assert(files_under(IndexField::Role, th[p as int], keys@[j]@));
                        }
                    }
                }
            }
            acc = narrow(acc, f);
        }
        let ghost acc2 = acc;
        assert(acc2 is Some <==> (q.thought_types is Some || q.roles is Some));
        assert(acc2 matches Some(v) ==> forall|p: usize| #[trigger] v@.contains(p) <==> (p < th.len() && type_filter(q, th[p as int]) && role_filter(q, th[p as int])));
        if let Some(ids) = &query.agent_ids {
            let f = ix.by_agent_id.positions_for_keys(ids.as_slice(), Ghost(IndexField::AgentId), Ghost(th));
            proof {
                assert forall|p: usize| f@.contains(p) <==> (p < th.len() && id_filter(q, th[p as int])) by {
                    if p < th.len() {
                        if listed(ids@, th[p as int].agent_id@) {
                            let j = choose|j: int| 0 <= j < ids@.len() && (#[trigger] ids@[j])@ == th[p as int].agent_id@;
                            assert(files_under(IndexField::AgentId, th[p as int], ids@[j]@));
                        }
                    }
                }
            }
            acc = narrow(acc, f);
        }
        let ghost acc3 = acc;
        assert(acc3 is Some <==> (q.thought_types is Some || q.roles is Some || q.agent_ids is Some));
        assert(acc3 matches Some(v) ==> forall|p: usize| #[trigger] v@.contains(p) <==> (p < th.len() && type_filter(q, th[p as int]) && role_filter(q, th[p as int])
            && id_filter(q, th[p as int])));
        if query.tags_any.len() > 0 {
            let f = matching_index_positions(&ix.by_tag, query.tags_any.as_slice(), Ghost(IndexField::Tag), Ghost(th));
            proof {
                assert forall|p: usize| f@.contains(p) <==> (p < th.len() && tag_index_filter(q, th[p as int])) by {
                    if p < th.len() {
                        let t = th[p as int];
                        if exists|k: Seq<char>| #[trigger] files_under(IndexField::Tag, t, k) && key_hits(k, q.tags_any@) {
                            let k = choose|k: Seq<char>| #[trigger] files_under(IndexField::Tag, t, k) && key_hits(k, q.tags_any@);
                            let i = choose|i: int| 0 <= i < t.tags@.len() && unicode_lower((#[trigger] t.tags@[i])@) == k;
                            assert(some_key_hit(t.tags@, q.tags_any@));
                        }
                        if some_key_hit(t.tags@, q.tags_any@) {
                            let i = choose|i: int| 0 <= i < t.tags@.len() && key_hits(unicode_lower((#[trigger] t.tags@[i])@), q.tags_any@);
                            assert(files_under(IndexField::Tag, t, unicode_lower(t.tags@[i]@)));
                        }
                    }
                }
            }
            acc = narrow(acc, f);
        }
        let ghost acc4 = acc;
        assert(acc4 is Some <==> (q.thought_types is Some || q.roles is Some || q.agent_ids is Some || q.tags_any@.len() > 0));
        assert(acc4 matches Some(v) ==> forall|p: usize| #[trigger] v@.contains(p) <==> (p < th.len() && type_filter(q, th[p as int]) && role_filter(q, th[p as int])
            && id_filter(q, th[p as int]) && tag_index_filter(q, th[p as int])));
        if query.concepts_any.len() > 0 {
            let f = matching_index_positions(&ix.by_concept, query.concepts_any.as_slice(), Ghost(IndexField::Concept), Ghost(th));
            proof {
                assert forall|p: usize| f@.contains(p) <==> (p < th.len() && concept_index_filter(q, th[p as int])) by {
                    if p < th.len() {
                        let t = th[p as int];
                        if exists|k: Seq<char>| #[trigger] files_under(IndexField::Concept, t, k) && key_hits(k, q.concepts_any@) {
                            let k = choose|k: Seq<char>| #[trigger] files_under(IndexField::Concept, t, k) && key_hits(k, q.concepts_any@);
                            let i = choose|i: int| 0 <= i < t.concepts@.len() && unicode_lower((#[trigger] t.concepts@[i])@) == k;
                            assert(some_key_hit(t.concepts@, q.concepts_any@));
                        }
                        if some_key_hit(t.concepts@, q.concepts_any@) {
                            let i = choose|i: int| 0 <= i < t.concepts@.len() && key_hits(unicode_lower((#[trigger] t.concepts@[i])@), q.concepts_any@);
                            assert(files_under(IndexField::Concept, t, unicode_lower(t.concepts@[i]@)));
                        }
                    }
                }
            }
            acc = narrow(acc, f);
        }
        let ghost acc5 = acc;
        assert(acc5 is Some <==> (q.thought_types is Some || q.roles is Some || q.agent_ids is Some || q.tags_any@.len() > 0
            || q.concepts_any@.len() > 0));
        assert(acc5 matches Some(v) ==> forall|p: usize| #[trigger] v@.contains(p) <==> (p < th.len() && type_filter(q, th[p as int]) && role_filter(q, th[p as int])
            && id_filter(q, th[p as int]) && tag_index_filter(q, th[p as int]) && concept_index_filter(q, th[p as int])));
        if let Some(names) = &query.agent_names {
            let ids = agent_ids_named(&self.agent_registry, names.as_slice());
            let f = ix.by_agent_id.positions_for_keys(ids.as_slice(), Ghost(IndexField::AgentId), Ghost(th));
            proof {
                assert forall|p: usize| f@.contains(p) <==> (p < th.len() && name_filter(reg, q, th[p as int])) by {
                    if p < th.len() {
                        let t = th[p as int];
                        if exists|j: int| 0 <= j < ids@.len() && files_under(IndexField::AgentId, t, (#[trigger] ids@[j])@) {
                            let j = choose|j: int| 0 <= j < ids@.len() && files_under(IndexField::AgentId, t, (#[trigger] ids@[j])@);
                            assert(listed(ids@, t.agent_id@));
                        }
                        if registered_with_name(reg, t.agent_id@, names@) {
                            assert(listed(ids@, t.agent_id@));
                            let j = choose|j: int| 0 <= j < ids@.len() && (#[trigger] ids@[j])@ == t.agent_id@;
                            assert(files_under(IndexField::AgentId, t, ids@[j]@));
                        }
                    }
                }
            }
            acc = narrow(acc, f);
        }
        let ghost acc6 = acc;
        assert(acc6 is Some <==> (q.thought_types is Some || q.roles is Some || q.agent_ids is Some || q.tags_any@.len() > 0
            || q.concepts_any@.len() > 0 || q.agent_names is Some));
        assert(acc6 matches Some(v) ==> forall|p: usize| #[trigger] v@.contains(p) <==> (p < th.len() && type_filter(q, th[p as int]) && role_filter(q, th[p as int])
            && id_filter(q, th[p as int]) && tag_index_filter(q, th[p as int]) && concept_index_filter(q, th[p as int])
            && name_filter(reg, q, th[p as int])));
        if let Some(owners) = &query.agent_owners {
            let ids = agent_ids_owned(&self.agent_registry, owners.as_slice());
            let f = ix.by_agent_id.positions_for_keys(ids.as_slice(), Ghost(IndexField::AgentId), Ghost(th));
            proof {
                assert forall|p: usize| f@.contains(p) <==> (p < th.len() && owner_filter(reg, q, th[p as int])) by {
                    if p < th.len() {
                        let t = th[p as int];
                        if exists|j: int| 0 <= j < ids@.len() && files_under(IndexField::AgentId, t, (#[trigger] ids@[j])@) {
                            let j = choose|j: int| 0 <= j < ids@.len() && files_under(IndexField::AgentId, t, (#[trigger] ids@[j])@);
                            assert(listed(ids@, t.agent_id@));
                        }
                        if registered_with_owner(reg, t.agent_id@, owners@) {
                            assert(listed(ids@, t.agent_id@));
                            let j = choose|j: int| 0 <= j < ids@.len() && (#[trigger] ids@[j])@ == t.agent_id@;
                            assert(files_under(IndexField::AgentId, t, ids@[j]@));
                        }
                    }
                }
            }
            acc = narrow(acc, f);
        }
        acc
    }
}

/// Where the scan over the candidate list stands before candidate `k`: that
/// candidate capped into `s..e`, or `e` past the last candidate.
pub open spec fn scan_bound(c: Seq<usize>, k: int, s: int, e: int) -> int {
    if k < c.len() {
        if c[k] < s {
            s
        } else if c[k] > e {
            e
        } else {
            c[k] as int
        }
    } else {
        e
    }
}

/// A position strictly between two neighbouring candidates is no candidate.
proof fn lemma_not_candidate(c: Seq<usize>, k: int, p: usize)
    requires
        strictly_sorted(c),
        0 <= k <= c.len(),
        k == 0 || c[k - 1] < p,
        k == c.len() || p < c[k],
    ensures
        !c.contains(p),
{
    if c.contains(p) {
        let m = choose|m: int| 0 <= m < c.len() && c[m] == p;
        if m < k {
            assert(c[m] <= c[k - 1]) by {
                if m < k - 1 {
                    assert(c[m] < c[k - 1]);
                }
            }
        } else {
            assert(c[k] <= c[m]) by {
                if k < m {
                    assert(c[k] < c[m]);
                }
            }
        }
    }
}

impl MentisDb {
    /// Whether the query selects position `p`; on the indexed path the
    /// caller vouches for the index filters.
    fn selects_at(&self, query: &ThoughtQuery, indexed: bool, p: usize) -> (r: bool)
        requires
            self.wf(),
            p < self.spec_thoughts().len(),
            indexed == uses_index(*query),
            indexed ==> index_match(*query, self.spec_agents(), self.spec_thoughts()[p as int]),
        ensures
            r == selects(self.spec_thoughts(), self.spec_agents(), *query, p as int),
    {
        proof {
            self.lemma_fields();
        }
        let t = &self.thoughts[p];
        if !query.include_invalidated && self.is_invalidated(t.id) {
            return false;
        }
        if !query.include_dreams && t.role == ThoughtRole::Dream {
            return false;
        }
        let m = if indexed {
            query.matches_post_index_filters(t)
        } else {
            query.matches(t)
        };
        m && query_matches_registry(&self.agent_registry, t, query)
    }

    /// The positions of the thoughts the query returns, in chain order.
    /// Candidates come from the indexes when the query sets an indexed
    /// filter and from the time range otherwise; hidden thoughts and dreams
    /// are left out unless asked for, and a limit keeps the last matches.
    /// When the instants are sorted the time range changes nothing.
    pub fn query_positions(&self, query: &ThoughtQuery) -> (r: Vec<usize>)
        requires
            self.wf(),
        ensures
            query_result(self.spec_thoughts(), self.spec_agents(), *query, r@),
            timestamps_sorted(self.spec_thoughts()) ==> r@ == keep_last(
                select_range(self.spec_thoughts(), self.spec_agents(), *query, 0, self.spec_thoughts().len() as int),
                query.limit,
            ),
            forall|j: int| 0 <= j < r@.len() ==> #[trigger] r@[j] < self.spec_thoughts().len(),
            strictly_sorted(r@),
    {
        let chain_len = self.thoughts.len();
        proof {
            self.lemma_fields();
            assert(chain_len == self.spec_thoughts().len());
            lemma_query_positions_increasing(self.spec_thoughts(), self.spec_agents(), *query);
        }
        let ghost th = self.spec_thoughts();
        let ghost reg = self.spec_agents();
        let ghost q = *query;
        let (start, end) = query.candidate_position_bounds(self.thoughts.as_slice());
        let ghost a = since_index(q, th);
        proof {
            lemma_index_points(q, th);
        }
        let mut out: Vec<usize> = Vec::new();
        match self.indexed_candidate_positions(query) {
            Some(cands) => {
                let n = cands.len();
                proof {
                    assert forall|p: int| start <= p < scan_bound(cands@, 0, start as int, end as int) implies !#[trigger] selects(th, reg, q, p) by {
                        lemma_not_candidate(cands@, 0, p as usize);
                    }
                    lemma_select_skip(th, reg, q, start as int, start as int, scan_bound(cands@, 0, start as int, end as int));
                }
                let mut k: usize = 0;
                while k < n
                    invariant
                        self.wf(),
                        th == self.spec_thoughts(),
                        reg == self.spec_agents(),
                        q == *query,
                        uses_index(q),
                        n == cands@.len(),
                        k <= n,
                        start <= end <= th.len(),
                        strictly_sorted(cands@),
                        forall|p: usize| #[trigger] cands@.contains(p) <==> (p < th.len() && index_match(q, reg, th[p as int])),
                        out@ == select_range(th, reg, q, start as int, scan_bound(cands@, k as int, start as int, end as int)),
                    decreases n - k,
                {
                    let c = cands[k];
                    let ghost b0 = scan_bound(cands@, k as int, start as int, end as int);
                    let ghost b1 = scan_bound(cands@, k + 1, start as int, end as int);
                    let ghost o0 = out@;
                    if start <= c && c < end {
                        assert(cands@.contains(c));
                        if self.selects_at(query, true, c) {
                            out.push(c);
                        }
                        proof {
                            assert(b0 == c);
                            assert(b1 >= c + 1) by {
                                if k + 1 < n {
                                    assert(cands@[k as int] < cands@[k + 1]);
                                }
                            }
                            assert forall|p: int| c + 1 <= p < b1 implies !#[trigger] selects(th, reg, q, p) by {
                                lemma_not_candidate(cands@, k + 1, p as usize);
                            }
                            lemma_select_skip(th, reg, q, start as int, c + 1, b1);
                        }
                    } else {
                        proof {
                            if c < start {
                                assert(b0 == start);
                                assert(b1 >= start);
                                assert forall|p: int| start <= p < b1 implies !#[trigger] selects(th, reg, q, p) by {
                                    lemma_not_candidate(cands@, k + 1, p as usize);
                                }
                                lemma_select_skip(th, reg, q, start as int, start as int, b1);
                            } else {
                                assert(b0 == end);
                                assert(b1 == end) by {
                                    if k + 1 < n {
                                        assert(cands@[k as int] < cands@[k + 1]);
                                    }
                                }
                            }
                        }
                    }
                    k = k + 1;
                }
            },
            None => {
                let mut p: usize = start;
                while p < end
                    invariant
                        self.wf(),
                        th == self.spec_thoughts(),
                        reg == self.spec_agents(),
                        q == *query,
                        !uses_index(q),
                        start <= p <= end <= th.len(),
                        out@ == select_range(th, reg, q, start as int, p as int),
                    decreases end - p,
                {
                    if self.selects_at(query, false, p) {
                        out.push(p);
                    }
                    p = p + 1;
                }
            },
        }
        let ghost sel = out@;
        assert(sel == select_range(th, reg, q, min_int(a, end as int), end as int));
        let r = match query.limit {
            Some(l) => {
                if out.len() > l {
                    let from = out.len() - l;
                    let mut tail: Vec<usize> = Vec::new();
                    let mut i: usize = from;
                    while i < out.len()
                        invariant
                            from <= i <= out@.len(),
                            tail@ == out@.subrange(from as int, i as int),
                        decreases out@.len() - i,
                    {
                        tail.push(out[i]);
                        i = i + 1;
                    }
                    tail
                } else {
                    out
                }
            },
            None => out,
        };
        proof {
            lemma_pick_bounds(|p: int| selects(th, reg, q, p), min_int(a, end as int), end as int);
            assert(since_point(q, th, a) && until_point(q, th, end as int));
            if timestamps_sorted(th) {
                lemma_sorted_bounds_exact(th, reg, q, a, end as int);
            }
        }
        r
    }

    /// The thoughts the query returns, in chain order; see
    /// [`MentisDb::query_positions`].
    pub fn query(&self, query: &ThoughtQuery) -> (r: Vec<&Thought>)
        requires
            self.wf(),
        ensures
            exists|ps: Seq<usize>|
                #![trigger ps.len()]
                {
                    &&& query_result(self.spec_thoughts(), self.spec_agents(), *query, ps)
                    &&& (timestamps_sorted(self.spec_thoughts()) ==> ps == keep_last(
                        select_range(self.spec_thoughts(), self.spec_agents(), *query, 0, self.spec_thoughts().len() as int),
                        query.limit,
                    ))
                    &&& r@.len() == ps.len()
                    &&& forall|i: int| 0 <= i < ps.len() ==> *(#[trigger] r@[i]) == self.spec_thoughts()[ps[i] as int]
                },
            forall|i: int, j: int| 0 <= i < j < r@.len() ==> (#[trigger] r@[i]).index < (#[trigger] r@[j]).index,
            forall|i: int| 0 <= i < r@.len() ==> filters_hold(*query, *#[trigger] r@[i]),
    {
        proof {
            self.lemma_fields();
            self.lemma_wf();
        }
        let ps = self.query_positions(query);
        let chain_len = self.thoughts.len();
        proof {
            assert(self.spec_thoughts().len() == chain_len);
            lemma_query_result_visible(self.spec_thoughts(), self.spec_agents(), *query, ps@);
        }
        let mut r: Vec<&Thought> = Vec::new();
        let mut i: usize = 0;
        while i < ps.len()
            invariant
                self.wf(),
                self.thoughts@ == self.spec_thoughts(),
                i <= ps@.len(),
                forall|j: int| 0 <= j < ps@.len() ==> ps@[j] < self.spec_thoughts().len(),
                r@.len() == i,
                forall|j: int| 0 <= j < i ==> *(#[trigger] r@[j]) == self.spec_thoughts()[ps@[j] as int],
            decreases ps@.len() - i,
        {
            r.push(&self.thoughts[ps[i]]);
            i = i + 1;
        }
        r
    }
}

/// The filters a returned thought must pass, each written out: no
/// importance below the minimum, a confidence at least the minimum, an
/// instant within the window, and a listed type and role.
pub open spec fn filters_hold(q: ThoughtQuery, t: Thought) -> bool {
    &&& (q.min_importance matches Some(m) ==> !(t.importance.rank matches Some(x) && m.rank matches Some(y) && x < y))
    &&& (q.min_confidence matches Some(m) ==> (t.confidence matches Some(c) && c.rank matches Some(x) && m.rank matches Some(y)
        && x >= y))
    &&& (q.since matches Some(s) ==> (s.secs < t.timestamp.secs || (s.secs == t.timestamp.secs && s.nanos <= t.timestamp.nanos)))
    &&& (q.until matches Some(u) ==> (t.timestamp.secs < u.secs || (t.timestamp.secs == u.secs && t.timestamp.nanos <= u.nanos)))
    &&& (q.thought_types matches Some(ts) ==> ts@.contains(t.thought_type))
    &&& (q.roles matches Some(rs) ==> rs@.contains(t.role))
}

/// What a query returns leaves out hidden thoughts unless the query asks
/// for them, leaves out dreams unless it asks for them, holds no more
/// thoughts than its limit, and passes every filter the query sets.
pub proof fn lemma_query_result_visible(thoughts: Seq<Thought>, reg: AgentRegistry, q: ThoughtQuery, ps: Seq<usize>)
    requires
        query_result(thoughts, reg, q, ps),
        thoughts.len() <= usize::MAX,
    ensures
        forall|i: int| 0 <= i < ps.len() ==> #[trigger] ps[i] < thoughts.len(),
        forall|i: int|
            0 <= i < ps.len() ==> (!q.include_invalidated ==> !invalidated_by_chain(thoughts, thoughts[#[trigger] ps[i] as int].id)),
        forall|i: int| 0 <= i < ps.len() ==> (!q.include_dreams ==> thoughts[#[trigger] ps[i] as int].role != ThoughtRole::Dream),
        q.limit matches Some(l) ==> ps.len() <= l,
        forall|i: int| 0 <= i < ps.len() ==> filters_hold(q, thoughts[#[trigger] ps[i] as int]),
{
    let a = since_index(q, thoughts);
    let e = until_index(q, thoughts);
    lemma_index_points(q, thoughts);
    let s = min_int(a, e);
    let pred = |p: int| selects(thoughts, reg, q, p);
    let full = select_range(thoughts, reg, q, s, e);
    lemma_pick_members(pred, s, e);
    lemma_pick_bounds(pred, s, e);
    assert forall|i: int| 0 <= i < ps.len() implies exists|j: int| 0 <= j < full.len() && full[j] == #[trigger] ps[i] by {
        match q.limit {
            Some(l) => {
                if full.len() > l {
                    assert(ps[i] == full[full.len() - l + i]);
                } else {
                    assert(ps[i] == full[i]);
                }
            },
            None => {
                assert(ps[i] == full[i]);
            },
        }
    }
    assert forall|i: int| 0 <= i < ps.len() implies #[trigger] ps[i] < thoughts.len() && selects(thoughts, reg, q, ps[i] as int) by {
        let j = choose|j: int| 0 <= j < full.len() && full[j] == #[trigger] ps[i];
        assert(pred(full[j] as int));
    }
    assert forall|i: int| 0 <= i < ps.len() implies filters_hold(q, thoughts[#[trigger] ps[i] as int]) by {
        assert(selects(thoughts, reg, q, ps[i] as int));
    }
}


/// The query behind [`MentisDb::related_to_concept`]: the one concept, the
/// limit, and nothing else set.
pub open spec fn is_concept_query(q: ThoughtQuery, concept: Seq<char>, limit: usize) -> bool {
    &&& q.thought_types is None
    &&& q.roles is None
    &&& q.agent_ids is None
    &&& q.agent_names is None
    &&& q.agent_owners is None
    &&& q.tags_any@.len() == 0
    &&& q.concepts_any@.len() == 1
    &&& q.concepts_any@[0]@ == concept
    &&& q.text_contains is None
    &&& q.min_importance is None
    &&& q.min_confidence is None
    &&& q.since is None
    &&& q.until is None
    &&& q.limit == Some(limit)
    &&& q.entity_type is None
    &&& q.source_episode is None
    &&& !q.include_invalidated
    &&& !q.include_dreams
}

impl MentisDb {
    /// The thoughts carrying `concept` (ignoring case), at most the last
    /// `limit` of them, as [`MentisDb::query`] returns them.
    pub fn related_to_concept(&self, concept: &str, limit: usize) -> (r: Vec<&Thought>)
        requires
            self.wf(),
        ensures
            exists|q: ThoughtQuery, ps: Seq<usize>|
                #![trigger query_result(self.spec_thoughts(), self.spec_agents(), q, ps)]
                {
                    &&& is_concept_query(q, concept@, limit)
                    &&& query_result(self.spec_thoughts(), self.spec_agents(), q, ps)
                    &&& r@.len() == ps.len()
                    &&& forall|i: int| 0 <= i < ps.len() ==> *(#[trigger] r@[i]) == self.spec_thoughts()[ps[i] as int]
                },
    {
        let mut concepts: Vec<String> = Vec::new();
        concepts.push(String::from_str(concept));
        let q = ThoughtQuery::new().with_concepts_any(concepts).with_limit(limit);
        let r = self.query(&q);
        proof {
            let ps = choose|ps: Seq<usize>|
                #![trigger ps.len()]
                {
                    &&& query_result(self.spec_thoughts(), self.spec_agents(), q, ps)
                    &&& (timestamps_sorted(self.spec_thoughts()) ==> ps == keep_last(
                        select_range(self.spec_thoughts(), self.spec_agents(), q, 0, self.spec_thoughts().len() as int),
                        q.limit,
                    ))
                    &&& r@.len() == ps.len()
                    &&& forall|i: int| 0 <= i < ps.len() ==> *(#[trigger] r@[i]) == self.spec_thoughts()[ps[i] as int]
                };
            assert(is_concept_query(q, concept@, limit));
            assert(query_result(self.spec_thoughts(), self.spec_agents(), q, ps));
        }
        r
    }
}

} // verus!
