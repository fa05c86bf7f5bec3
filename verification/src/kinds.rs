//! The closed vocabularies of the memory log: thought types, roles, scopes,
//! relation kinds, storage kinds and the small enums around them, with their
//! stable names and parsers.
use vstd::prelude::*;
use crate::text::{
    ascii_lower, ascii_lower_char, ascii_lower_chars, chars_eq_str, chars_of, concat_str,
    is_ascii_alnum, is_ascii_alnum_char, string_from_chars, to_ascii_lower_char, trim, trim_chars,
};

verus! {

/// Normal form of a label: its ASCII letters and digits, lower-cased; every
/// other character is dropped.
pub open spec fn label_key(s: Seq<char>) -> Seq<char>
    decreases s.len(),
{
    if s.len() == 0 {
        Seq::empty()
    } else if is_ascii_alnum(s[0]) {
        seq![ascii_lower_char(s[0])] + label_key(s.drop_first())
    } else {
        label_key(s.drop_first())
    }
}

proof fn lemma_label_key_push(s: Seq<char>, c: char)
    ensures
        label_key(s.push(c)) == if is_ascii_alnum(c) {
            label_key(s).push(ascii_lower_char(c))
        } else {
            label_key(s)
        },
    decreases s.len(),
{
    if s.len() == 0 {
        assert(s.push(c).drop_first() =~= Seq::<char>::empty());
        assert(label_key(Seq::<char>::empty()) =~= Seq::<char>::empty());
    } else {
        assert(s.push(c).drop_first() =~= s.drop_first().push(c));
        lemma_label_key_push(s.drop_first(), c);
    }
}

/// The normal form of a label is no longer than the label, and as long
/// only when every character is an ASCII letter or digit.
pub proof fn lemma_label_key_len(s: Seq<char>)
    ensures
        label_key(s).len() <= s.len(),
        label_key(s).len() == s.len() ==> forall|i: int| 0 <= i < s.len() ==> is_ascii_alnum(#[trigger] s[i]),
    decreases s.len(),
{
    if s.len() > 0 {
        lemma_label_key_len(s.drop_first());
        if label_key(s).len() == s.len() {
            assert(is_ascii_alnum(s[0]));
            assert forall|i: int| 0 <= i < s.len() implies is_ascii_alnum(#[trigger] s[i]) by {
                if i > 0 {
                    assert(s[i] == s.drop_first()[i - 1]);
                }
            }
        }
    }
}

/// Computes [`label_key`].
pub fn label_key_of(s: &str) -> (r: Vec<char>)
    ensures
        r@ == label_key(s@),
{
    let v = chars_of(s);
    let mut r: Vec<char> = Vec::new();
    let mut i: usize = 0;
    proof {
        assert(label_key(v@.subrange(0, 0)) =~= Seq::<char>::empty());
    }
    while i < v.len()
        invariant
            i <= v@.len(),
            r@ == label_key(v@.subrange(0, i as int)),
        decreases v@.len() - i,
    {
        let c = v[i];
        proof {
            assert(v@.subrange(0, i + 1) =~= v@.subrange(0, i as int).push(c));
            lemma_label_key_push(v@.subrange(0, i as int), c);
        }
        if is_ascii_alnum_char(c) {
            r.push(to_ascii_lower_char(c));
        }
        i = i + 1;
    }
    assert(v@.subrange(0, v@.len() as int) =~= v@);
    r
}

/// The trimmed, ASCII-lower-cased form of a name, which the parsers of the
/// smaller vocabularies match against.
pub open spec fn lowered_trim(s: Seq<char>) -> Seq<char> {
    ascii_lower(trim(s))
}

fn lowered_trim_of(s: &str) -> (r: Vec<char>)
    ensures
        r@ == lowered_trim(s@),
{
    ascii_lower_chars(&trim_chars(&chars_of(s)))
}

/// Supported durable storage formats.
#[derive(Debug, Clone, Copy, PartialEq, Eq, Hash, Structural)]
pub enum StorageAdapterKind {
    /// Length-prefixed binary records; the only format used for new chains.
    Binary,
    /// Legacy newline-delimited JSON, kept readable for migration only.
    Jsonl,
}

impl StorageAdapterKind {
    pub open spec fn name(self) -> Seq<char> {
        match self {
            StorageAdapterKind::Binary => "binary"@,
            StorageAdapterKind::Jsonl => "jsonl"@,
        }
    }

    pub open spec fn extension(self) -> Seq<char> {
        match self {
            StorageAdapterKind::Binary => "tcbin"@,
            StorageAdapterKind::Jsonl => "jsonl"@,
        }
    }

    /// The default kind for new chains.
    pub fn default_kind() -> (k: StorageAdapterKind)
        ensures
            k == StorageAdapterKind::Binary,
    {
        StorageAdapterKind::Binary
    }

    /// Stable lowercase name of this adapter kind.
    pub fn as_str(self) -> (s: &'static str)
        ensures
            s@ == self.name(),
    {
        match self {
            StorageAdapterKind::Binary => "binary",
            StorageAdapterKind::Jsonl => "jsonl",
        }
    }

    /// File extension used by this adapter kind.
    pub fn file_extension(self) -> (s: &'static str)
        ensures
            s@ == self.extension(),
    {
        match self {
            StorageAdapterKind::Binary => "tcbin",
            StorageAdapterKind::Jsonl => "jsonl",
        }
    }

    /// Parses a kind name, ignoring surrounding whitespace and ASCII case.
    /// An unknown name is refused with a message that quotes it.
    pub fn parse(value: &str) -> (r: Result<StorageAdapterKind, String>)
        ensures
            lowered_trim(value@) == "binary"@ ==> r == Ok::<StorageAdapterKind, String>(
                StorageAdapterKind::Binary,
            ),
            lowered_trim(value@) == "jsonl"@ ==> r == Ok::<StorageAdapterKind, String>(
                StorageAdapterKind::Jsonl,
            ),
            lowered_trim(value@) != "binary"@ && lowered_trim(value@) != "jsonl"@ ==> (
            r matches Err(msg) && msg@ == "Unsupported MentisDb storage adapter '"@ + lowered_trim(
                value@,
            ) + "'. Expected 'binary'"@),
    {
        proof {
            reveal_strlit("binary");
            reveal_strlit("jsonl");
            assert("binary"@.len() != "jsonl"@.len());
        }
        let norm = lowered_trim_of(value);
        if chars_eq_str(&norm, "binary") {
            Ok(StorageAdapterKind::Binary)
        } else if chars_eq_str(&norm, "jsonl") {
            Ok(StorageAdapterKind::Jsonl)
        } else {
            let other = string_from_chars(&norm);
            let m = concat_str("Unsupported MentisDb storage adapter '", other.as_str());
            Err(concat_str(m.as_str(), "'. Expected 'binary'"))
        }
    }
}

impl std::str::FromStr for StorageAdapterKind {
    type Err = String;

    fn from_str(value: &str) -> (r: Result<Self, Self::Err>)
        ensures
            lowered_trim(value@) == "binary"@ ==> r == Ok::<StorageAdapterKind, String>(
                StorageAdapterKind::Binary,
            ),
            lowered_trim(value@) == "jsonl"@ ==> r == Ok::<StorageAdapterKind, String>(
                StorageAdapterKind::Jsonl,
            ),
            lowered_trim(value@) != "binary"@ && lowered_trim(value@) != "jsonl"@ ==> (
            r matches Err(msg) && msg@ == "Unsupported MentisDb storage adapter '"@ + lowered_trim(
                value@,
            ) + "'. Expected 'binary'"@),
    {
        StorageAdapterKind::parse(value)
    }
}

/// Supported public-key algorithms for agent identity records.
#[derive(Debug, Clone, Copy, PartialEq, Eq, Hash, Structural)]
pub enum PublicKeyAlgorithm {
    /// Ed25519 signing keys.
    Ed25519,
}

impl PublicKeyAlgorithm {
    pub open spec fn name(self) -> Seq<char> {
        "ed25519"@
    }

    /// Stable lowercase name of this key algorithm.
    pub fn as_str(self) -> (s: &'static str)
        ensures
            s@ == self.name(),
    {
        match self {
            PublicKeyAlgorithm::Ed25519 => "ed25519",
        }
    }

    /// Parses an algorithm name, ignoring surrounding whitespace and ASCII case.
    pub fn parse(value: &str) -> (r: Result<PublicKeyAlgorithm, String>)
        ensures
            lowered_trim(value@) == "ed25519"@ ==> r == Ok::<PublicKeyAlgorithm, String>(
                PublicKeyAlgorithm::Ed25519,
            ),
            lowered_trim(value@) != "ed25519"@ ==> (r matches Err(msg) && msg@
                == "Unsupported MentisDb public-key algorithm '"@ + lowered_trim(value@)
                + "'. Expected 'ed25519'"@),
    {
        let norm = lowered_trim_of(value);
        if chars_eq_str(&norm, "ed25519") {
            Ok(PublicKeyAlgorithm::Ed25519)
        } else {
            let other = string_from_chars(&norm);
            let m = concat_str("Unsupported MentisDb public-key algorithm '", other.as_str());
            Err(concat_str(m.as_str(), "'. Expected 'ed25519'"))
        }
    }
}

impl std::str::FromStr for PublicKeyAlgorithm {
    type Err = String;

    fn from_str(value: &str) -> (r: Result<Self, Self::Err>)
        ensures
            lowered_trim(value@) == "ed25519"@ ==> r == Ok::<PublicKeyAlgorithm, String>(
                PublicKeyAlgorithm::Ed25519,
            ),
            lowered_trim(value@) != "ed25519"@ ==> (r matches Err(msg) && msg@
                == "Unsupported MentisDb public-key algorithm '"@ + lowered_trim(value@)
                + "'. Expected 'ed25519'"@),
    {
        PublicKeyAlgorithm::parse(value)
    }
}

/// Lifecycle status of an agent record.
#[derive(Debug, Clone, Copy, PartialEq, Eq, Hash, Structural)]
pub enum AgentStatus {
    /// The agent is active.
    Active,
    /// The agent has been revoked or retired.
    Revoked,
}

impl AgentStatus {
    pub open spec fn name(self) -> Seq<char> {
        match self {
            AgentStatus::Active => "active"@,
            AgentStatus::Revoked => "revoked"@,
        }
    }

    /// Stable lowercase name of this status.
    pub fn as_str(self) -> (s: &'static str)
        ensures
            s@ == self.name(),
    {
        match self {
            AgentStatus::Active => "active",
            AgentStatus::Revoked => "revoked",
        }
    }

    /// Parses a status name; `disabled` is accepted as a synonym of `revoked`.
    pub fn parse(value: &str) -> (r: Result<AgentStatus, String>)
        ensures
            lowered_trim(value@) == "active"@ ==> r == Ok::<AgentStatus, String>(
                AgentStatus::Active,
            ),
            (lowered_trim(value@) == "revoked"@ || lowered_trim(value@) == "disabled"@) ==> r
                == Ok::<AgentStatus, String>(AgentStatus::Revoked),
            (lowered_trim(value@) != "active"@ && lowered_trim(value@) != "revoked"@
                && lowered_trim(value@) != "disabled"@) ==> (r matches Err(msg) && msg@
                == "Unsupported MentisDb agent status '"@ + lowered_trim(value@)
                + "'. Expected 'active' or 'revoked'"@),
    {
        proof {
            reveal_strlit("active");
            reveal_strlit("revoked");
            reveal_strlit("disabled");
            assert("active"@.len() != "revoked"@.len());
            assert("active"@.len() != "disabled"@.len());
        }
        let norm = lowered_trim_of(value);
        if chars_eq_str(&norm, "active") {
            Ok(AgentStatus::Active)
        } else if chars_eq_str(&norm, "revoked") || chars_eq_str(&norm, "disabled") {
            Ok(AgentStatus::Revoked)
        } else {
            let other = string_from_chars(&norm);
            let m = concat_str("Unsupported MentisDb agent status '", other.as_str());
            Err(concat_str(m.as_str(), "'. Expected 'active' or 'revoked'"))
        }
    }
}

impl std::str::FromStr for AgentStatus {
    type Err = String;

    fn from_str(value: &str) -> (r: Result<Self, Self::Err>)
        ensures
            lowered_trim(value@) == "active"@ ==> r == Ok::<AgentStatus, String>(
                AgentStatus::Active,
            ),
            (lowered_trim(value@) == "revoked"@ || lowered_trim(value@) == "disabled"@) ==> r
                == Ok::<AgentStatus, String>(AgentStatus::Revoked),
            (lowered_trim(value@) != "active"@ && lowered_trim(value@) != "revoked"@
                && lowered_trim(value@) != "disabled"@) ==> (r matches Err(msg) && msg@
                == "Unsupported MentisDb agent status '"@ + lowered_trim(value@)
                + "'. Expected 'active' or 'revoked'"@),
    {
        AgentStatus::parse(value)
    }
}

/// Semantic category describing what changed in the agent's internal model.
///
/// New variants are only ever appended at the end: the binary format stores a variant by its position.
#[derive(Debug, Clone, Copy, PartialEq, Eq, Hash, Structural)]
pub enum ThoughtType {
    /// A user's stated preference changed or became explicit.
    PreferenceUpdate,
    /// A durable characteristic of the user was learned.
    UserTrait,
    /// The agent's model of its relationship with the user changed.
    RelationshipUpdate,
    /// A concrete observation was recorded.
    Finding,
    /// A higher-level synthesis or realization was recorded.
    Insight,
    /// A factual piece of information was learned.
    FactLearned,
    /// A recurring pattern was detected across events or interactions.
    PatternDetected,
    /// A tentative explanation or prediction was formed.
    Hypothesis,
    /// An error in prior reasoning or action was recorded.
    Mistake,
    /// The corrected version of a prior mistake was recorded.
    Correction,
    /// A durable lesson or operating heuristic was distilled.
    LessonLearned,
    /// A previously trusted assumption was invalidated.
    AssumptionInvalidated,
    /// A requirement or hard limit was identified.
    Constraint,
    /// A plan for future work was created or updated.
    Plan,
    /// A smaller unit of work was carved out from a broader plan.
    Subgoal,
    /// A concrete choice was made.
    Decision,
    /// The overall approach changed.
    StrategyShift,
    /// An open-ended line of exploration was recorded.
    Wonder,
    /// An unresolved question was recorded.
    Question,
    /// A possible future direction was proposed.
    Idea,
    /// An experiment or trial was proposed or executed.
    Experiment,
    /// A meaningful action was performed.
    ActionTaken,
    /// A task or milestone was completed.
    TaskComplete,
    /// A checkpoint suitable for resumption was recorded.
    Checkpoint,
    /// A broader snapshot of current state was recorded.
    StateSnapshot,
    /// Work or context was handed to another actor.
    Handoff,
    /// A summary view of prior thoughts was recorded.
    Summary,
    /// An unexpected outcome or mismatch was observed.
    Surprise,
    /// A prior thought was recontextualised without being denied.
    Reframe,
    /// A high-level objective or desired outcome.
    Goal,
    /// A memory produced by the LLM extraction pipeline.
    LLMExtracted,
}

impl ThoughtType {
    /// Canonical PascalCase name.
    pub open spec fn name(self) -> Seq<char> {
        match self {
            ThoughtType::PreferenceUpdate => "PreferenceUpdate"@,
            ThoughtType::UserTrait => "UserTrait"@,
            ThoughtType::RelationshipUpdate => "RelationshipUpdate"@,
            ThoughtType::Finding => "Finding"@,
            ThoughtType::Insight => "Insight"@,
            ThoughtType::FactLearned => "FactLearned"@,
            ThoughtType::PatternDetected => "PatternDetected"@,
            ThoughtType::Hypothesis => "Hypothesis"@,
            ThoughtType::Mistake => "Mistake"@,
            ThoughtType::Correction => "Correction"@,
            ThoughtType::LessonLearned => "LessonLearned"@,
            ThoughtType::AssumptionInvalidated => "AssumptionInvalidated"@,
            ThoughtType::Constraint => "Constraint"@,
            ThoughtType::Plan => "Plan"@,
            ThoughtType::Subgoal => "Subgoal"@,
            ThoughtType::Decision => "Decision"@,
            ThoughtType::StrategyShift => "StrategyShift"@,
            ThoughtType::Wonder => "Wonder"@,
            ThoughtType::Question => "Question"@,
            ThoughtType::Idea => "Idea"@,
            ThoughtType::Experiment => "Experiment"@,
            ThoughtType::ActionTaken => "ActionTaken"@,
            ThoughtType::TaskComplete => "TaskComplete"@,
            ThoughtType::Checkpoint => "Checkpoint"@,
            ThoughtType::StateSnapshot => "StateSnapshot"@,
            ThoughtType::Handoff => "Handoff"@,
            ThoughtType::Summary => "Summary"@,
            ThoughtType::Surprise => "Surprise"@,
            ThoughtType::Reframe => "Reframe"@,
            ThoughtType::Goal => "Goal"@,
            ThoughtType::LLMExtracted => "LLMExtracted"@,
        }
    }

    /// The lower-case key that a label of this type normalizes to.
    pub open spec fn key(self) -> Seq<char> {
        match self {
            ThoughtType::PreferenceUpdate => "preferenceupdate"@,
            ThoughtType::UserTrait => "usertrait"@,
            ThoughtType::RelationshipUpdate => "relationshipupdate"@,
            ThoughtType::Finding => "finding"@,
            ThoughtType::Insight => "insight"@,
            ThoughtType::FactLearned => "factlearned"@,
            ThoughtType::PatternDetected => "patterndetected"@,
            ThoughtType::Hypothesis => "hypothesis"@,
            ThoughtType::Mistake => "mistake"@,
            ThoughtType::Correction => "correction"@,
            ThoughtType::LessonLearned => "lessonlearned"@,
            ThoughtType::AssumptionInvalidated => "assumptioninvalidated"@,
            ThoughtType::Constraint => "constraint"@,
            ThoughtType::Plan => "plan"@,
            ThoughtType::Subgoal => "subgoal"@,
            ThoughtType::Decision => "decision"@,
            ThoughtType::StrategyShift => "strategyshift"@,
            ThoughtType::Wonder => "wonder"@,
            ThoughtType::Question => "question"@,
            ThoughtType::Idea => "idea"@,
            ThoughtType::Experiment => "experiment"@,
            ThoughtType::ActionTaken => "actiontaken"@,
            ThoughtType::TaskComplete => "taskcomplete"@,
            ThoughtType::Checkpoint => "checkpoint"@,
            ThoughtType::StateSnapshot => "statesnapshot"@,
            ThoughtType::Handoff => "handoff"@,
            ThoughtType::Summary => "summary"@,
            ThoughtType::Surprise => "surprise"@,
            ThoughtType::Reframe => "reframe"@,
            ThoughtType::Goal => "goal"@,
            ThoughtType::LLMExtracted => "llmextracted"@,
        }
    }

    /// Canonical PascalCase name for this thought type.
    pub fn as_str(&self) -> (s: &'static str)
        ensures
            s@ == self.name(),
    {
        match self {
            ThoughtType::PreferenceUpdate => "PreferenceUpdate",
            ThoughtType::UserTrait => "UserTrait",
            ThoughtType::RelationshipUpdate => "RelationshipUpdate",
            ThoughtType::Finding => "Finding",
            ThoughtType::Insight => "Insight",
            ThoughtType::FactLearned => "FactLearned",
            ThoughtType::PatternDetected => "PatternDetected",
            ThoughtType::Hypothesis => "Hypothesis",
            ThoughtType::Mistake => "Mistake",
            ThoughtType::Correction => "Correction",
            ThoughtType::LessonLearned => "LessonLearned",
            ThoughtType::AssumptionInvalidated => "AssumptionInvalidated",
            ThoughtType::Constraint => "Constraint",
            ThoughtType::Plan => "Plan",
            ThoughtType::Subgoal => "Subgoal",
            ThoughtType::Decision => "Decision",
            ThoughtType::StrategyShift => "StrategyShift",
            ThoughtType::Wonder => "Wonder",
            ThoughtType::Question => "Question",
            ThoughtType::Idea => "Idea",
            ThoughtType::Experiment => "Experiment",
            ThoughtType::ActionTaken => "ActionTaken",
            ThoughtType::TaskComplete => "TaskComplete",
            ThoughtType::Checkpoint => "Checkpoint",
            ThoughtType::StateSnapshot => "StateSnapshot",
            ThoughtType::Handoff => "Handoff",
            ThoughtType::Summary => "Summary",
            ThoughtType::Surprise => "Surprise",
            ThoughtType::Reframe => "Reframe",
            ThoughtType::Goal => "Goal",
            ThoughtType::LLMExtracted => "LLMExtracted",
        }
    }

    /// Every valid thought type, in declaration order.
    pub open spec fn spec_all() -> Seq<ThoughtType> {
        seq![
            ThoughtType::PreferenceUpdate,
            ThoughtType::UserTrait,
            ThoughtType::RelationshipUpdate,
            ThoughtType::Finding,
            ThoughtType::Insight,
            ThoughtType::FactLearned,
            ThoughtType::PatternDetected,
            ThoughtType::Hypothesis,
            ThoughtType::Mistake,
            ThoughtType::Correction,
            ThoughtType::LessonLearned,
            ThoughtType::AssumptionInvalidated,
            ThoughtType::Constraint,
            ThoughtType::Plan,
            ThoughtType::Subgoal,
            ThoughtType::Decision,
            ThoughtType::StrategyShift,
            ThoughtType::Wonder,
            ThoughtType::Question,
            ThoughtType::Idea,
            ThoughtType::Experiment,
            ThoughtType::ActionTaken,
            ThoughtType::TaskComplete,
            ThoughtType::Checkpoint,
            ThoughtType::StateSnapshot,
            ThoughtType::Handoff,
            ThoughtType::Summary,
            ThoughtType::Surprise,
            ThoughtType::Reframe,
            ThoughtType::Goal,
            ThoughtType::LLMExtracted,
        ]
    }

    /// Every valid thought type, in declaration order.
    pub fn all() -> (v: Vec<ThoughtType>)
        ensures
            v@ == ThoughtType::spec_all(),
            v@.len() == 31,
            forall|t: ThoughtType| #[trigger] v@.contains(t),
            v@[0] == ThoughtType::PreferenceUpdate,
            v@[1] == ThoughtType::UserTrait,
            v@[2] == ThoughtType::RelationshipUpdate,
            v@[3] == ThoughtType::Finding,
            v@[4] == ThoughtType::Insight,
            v@[5] == ThoughtType::FactLearned,
            v@[6] == ThoughtType::PatternDetected,
            v@[7] == ThoughtType::Hypothesis,
            v@[8] == ThoughtType::Mistake,
            v@[9] == ThoughtType::Correction,
            v@[10] == ThoughtType::LessonLearned,
            v@[11] == ThoughtType::AssumptionInvalidated,
            v@[12] == ThoughtType::Constraint,
            v@[13] == ThoughtType::Plan,
            v@[14] == ThoughtType::Subgoal,
            v@[15] == ThoughtType::Decision,
            v@[16] == ThoughtType::StrategyShift,
            v@[17] == ThoughtType::Wonder,
            v@[18] == ThoughtType::Question,
            v@[19] == ThoughtType::Idea,
            v@[20] == ThoughtType::Experiment,
            v@[21] == ThoughtType::ActionTaken,
            v@[22] == ThoughtType::TaskComplete,
            v@[23] == ThoughtType::Checkpoint,
            v@[24] == ThoughtType::StateSnapshot,
            v@[25] == ThoughtType::Handoff,
            v@[26] == ThoughtType::Summary,
            v@[27] == ThoughtType::Surprise,
            v@[28] == ThoughtType::Reframe,
            v@[29] == ThoughtType::Goal,
            v@[30] == ThoughtType::LLMExtracted,
    {
        let mut v: Vec<ThoughtType> = Vec::new();
        v.push(ThoughtType::PreferenceUpdate);
        v.push(ThoughtType::UserTrait);
        v.push(ThoughtType::RelationshipUpdate);
        v.push(ThoughtType::Finding);
        v.push(ThoughtType::Insight);
        v.push(ThoughtType::FactLearned);
        v.push(ThoughtType::PatternDetected);
        v.push(ThoughtType::Hypothesis);
        v.push(ThoughtType::Mistake);
        v.push(ThoughtType::Correction);
        v.push(ThoughtType::LessonLearned);
        v.push(ThoughtType::AssumptionInvalidated);
        v.push(ThoughtType::Constraint);
        v.push(ThoughtType::Plan);
        v.push(ThoughtType::Subgoal);
        v.push(ThoughtType::Decision);
        v.push(ThoughtType::StrategyShift);
        v.push(ThoughtType::Wonder);
        v.push(ThoughtType::Question);
        v.push(ThoughtType::Idea);
        v.push(ThoughtType::Experiment);
        v.push(ThoughtType::ActionTaken);
        v.push(ThoughtType::TaskComplete);
        v.push(ThoughtType::Checkpoint);
        v.push(ThoughtType::StateSnapshot);
        v.push(ThoughtType::Handoff);
        v.push(ThoughtType::Summary);
        v.push(ThoughtType::Surprise);
        v.push(ThoughtType::Reframe);
        v.push(ThoughtType::Goal);
        v.push(ThoughtType::LLMExtracted);
        proof {
            assert forall|t: ThoughtType| #[trigger] v@.contains(t) by {
                match t {
                    ThoughtType::PreferenceUpdate => assert(v@[0] == t),
                    ThoughtType::UserTrait => assert(v@[1] == t),
                    ThoughtType::RelationshipUpdate => assert(v@[2] == t),
                    ThoughtType::Finding => assert(v@[3] == t),
                    ThoughtType::Insight => assert(v@[4] == t),
                    ThoughtType::FactLearned => assert(v@[5] == t),
                    ThoughtType::PatternDetected => assert(v@[6] == t),
                    ThoughtType::Hypothesis => assert(v@[7] == t),
                    ThoughtType::Mistake => assert(v@[8] == t),
                    ThoughtType::Correction => assert(v@[9] == t),
                    ThoughtType::LessonLearned => assert(v@[10] == t),
                    ThoughtType::AssumptionInvalidated => assert(v@[11] == t),
                    ThoughtType::Constraint => assert(v@[12] == t),
                    ThoughtType::Plan => assert(v@[13] == t),
                    ThoughtType::Subgoal => assert(v@[14] == t),
                    ThoughtType::Decision => assert(v@[15] == t),
                    ThoughtType::StrategyShift => assert(v@[16] == t),
                    ThoughtType::Wonder => assert(v@[17] == t),
                    ThoughtType::Question => assert(v@[18] == t),
                    ThoughtType::Idea => assert(v@[19] == t),
                    ThoughtType::Experiment => assert(v@[20] == t),
                    ThoughtType::ActionTaken => assert(v@[21] == t),
                    ThoughtType::TaskComplete => assert(v@[22] == t),
                    ThoughtType::Checkpoint => assert(v@[23] == t),
                    ThoughtType::StateSnapshot => assert(v@[24] == t),
                    ThoughtType::Handoff => assert(v@[25] == t),
                    ThoughtType::Summary => assert(v@[26] == t),
                    ThoughtType::Surprise => assert(v@[27] == t),
                    ThoughtType::Reframe => assert(v@[28] == t),
                    ThoughtType::Goal => assert(v@[29] == t),
                    ThoughtType::LLMExtracted => assert(v@[30] == t),
                }
            }
        }
        v
    }
}

/// The thought type whose key is `k`, if any.
pub open spec fn thought_type_from_key(k: Seq<char>) -> Option<ThoughtType> {
    if k == "preferenceupdate"@ {
        Some(ThoughtType::PreferenceUpdate)
    } else if k == "usertrait"@ {
        Some(ThoughtType::UserTrait)
    } else if k == "relationshipupdate"@ {
        Some(ThoughtType::RelationshipUpdate)
    } else if k == "finding"@ {
        Some(ThoughtType::Finding)
    } else if k == "insight"@ {
        Some(ThoughtType::Insight)
    } else if k == "factlearned"@ {
        Some(ThoughtType::FactLearned)
    } else if k == "patterndetected"@ {
        Some(ThoughtType::PatternDetected)
    } else if k == "hypothesis"@ {
        Some(ThoughtType::Hypothesis)
    } else if k == "mistake"@ {
        Some(ThoughtType::Mistake)
    } else if k == "correction"@ {
        Some(ThoughtType::Correction)
    } else if k == "lessonlearned"@ {
        Some(ThoughtType::LessonLearned)
    } else if k == "assumptioninvalidated"@ {
        Some(ThoughtType::AssumptionInvalidated)
    } else if k == "constraint"@ {
        Some(ThoughtType::Constraint)
    } else if k == "plan"@ {
        Some(ThoughtType::Plan)
    } else if k == "subgoal"@ {
        Some(ThoughtType::Subgoal)
    } else if k == "decision"@ {
        Some(ThoughtType::Decision)
    } else if k == "strategyshift"@ {
        Some(ThoughtType::StrategyShift)
    } else if k == "wonder"@ {
        Some(ThoughtType::Wonder)
    } else if k == "question"@ {
        Some(ThoughtType::Question)
    } else if k == "idea"@ {
        Some(ThoughtType::Idea)
    } else if k == "experiment"@ {
        Some(ThoughtType::Experiment)
    } else if k == "actiontaken"@ {
        Some(ThoughtType::ActionTaken)
    } else if k == "taskcomplete"@ {
        Some(ThoughtType::TaskComplete)
    } else if k == "checkpoint"@ {
        Some(ThoughtType::Checkpoint)
    } else if k == "statesnapshot"@ {
        Some(ThoughtType::StateSnapshot)
    } else if k == "handoff"@ {
        Some(ThoughtType::Handoff)
    } else if k == "summary"@ {
        Some(ThoughtType::Summary)
    } else if k == "surprise"@ {
        Some(ThoughtType::Surprise)
    } else if k == "reframe"@ {
        Some(ThoughtType::Reframe)
    } else if k == "goal"@ {
        Some(ThoughtType::Goal)
    } else if k == "llmextracted"@ {
        Some(ThoughtType::LLMExtracted)
    } else {
        None
    }
}

fn thought_type_for_key(k: &[char]) -> (r: Option<ThoughtType>)
    ensures
        r == thought_type_from_key(k@),
{
    if chars_eq_str(k, "preferenceupdate") {
        return Some(ThoughtType::PreferenceUpdate);
    }
    if chars_eq_str(k, "usertrait") {
        return Some(ThoughtType::UserTrait);
    }
    if chars_eq_str(k, "relationshipupdate") {
        return Some(ThoughtType::RelationshipUpdate);
    }
    if chars_eq_str(k, "finding") {
        return Some(ThoughtType::Finding);
    }
    if chars_eq_str(k, "insight") {
        return Some(ThoughtType::Insight);
    }
    if chars_eq_str(k, "factlearned") {
        return Some(ThoughtType::FactLearned);
    }
    if chars_eq_str(k, "patterndetected") {
        return Some(ThoughtType::PatternDetected);
    }
    if chars_eq_str(k, "hypothesis") {
        return Some(ThoughtType::Hypothesis);
    }
    if chars_eq_str(k, "mistake") {
        return Some(ThoughtType::Mistake);
    }
    if chars_eq_str(k, "correction") {
        return Some(ThoughtType::Correction);
    }
    if chars_eq_str(k, "lessonlearned") {
        return Some(ThoughtType::LessonLearned);
    }
    if chars_eq_str(k, "assumptioninvalidated") {
        return Some(ThoughtType::AssumptionInvalidated);
    }
    if chars_eq_str(k, "constraint") {
        return Some(ThoughtType::Constraint);
    }
    if chars_eq_str(k, "plan") {
        return Some(ThoughtType::Plan);
    }
    if chars_eq_str(k, "subgoal") {
        return Some(ThoughtType::Subgoal);
    }
    if chars_eq_str(k, "decision") {
        return Some(ThoughtType::Decision);
    }
    if chars_eq_str(k, "strategyshift") {
        return Some(ThoughtType::StrategyShift);
    }
    if chars_eq_str(k, "wonder") {
        return Some(ThoughtType::Wonder);
    }
    if chars_eq_str(k, "question") {
        return Some(ThoughtType::Question);
    }
    if chars_eq_str(k, "idea") {
        return Some(ThoughtType::Idea);
    }
    if chars_eq_str(k, "experiment") {
        return Some(ThoughtType::Experiment);
    }
    if chars_eq_str(k, "actiontaken") {
        return Some(ThoughtType::ActionTaken);
    }
    if chars_eq_str(k, "taskcomplete") {
        return Some(ThoughtType::TaskComplete);
    }
    if chars_eq_str(k, "checkpoint") {
        return Some(ThoughtType::Checkpoint);
    }
    if chars_eq_str(k, "statesnapshot") {
        return Some(ThoughtType::StateSnapshot);
    }
    if chars_eq_str(k, "handoff") {
        return Some(ThoughtType::Handoff);
    }
    if chars_eq_str(k, "summary") {
        return Some(ThoughtType::Summary);
    }
    if chars_eq_str(k, "surprise") {
        return Some(ThoughtType::Surprise);
    }
    if chars_eq_str(k, "reframe") {
        return Some(ThoughtType::Reframe);
    }
    if chars_eq_str(k, "goal") {
        return Some(ThoughtType::Goal);
    }
    if chars_eq_str(k, "llmextracted") {
        return Some(ThoughtType::LLMExtracted);
    }
    None
}

proof fn lemma_key_roundtrip_preferenceupdate()
    ensures
        label_key(ThoughtType::PreferenceUpdate.name()) == ThoughtType::PreferenceUpdate.key(),
        ThoughtType::PreferenceUpdate.name().len() == ThoughtType::PreferenceUpdate.key().len(),
        thought_type_from_key(ThoughtType::PreferenceUpdate.key()) == Some(ThoughtType::PreferenceUpdate),
{
    reveal_with_fuel(label_key, 24);
    reveal_strlit("PreferenceUpdate");
    reveal_strlit("preferenceupdate");
    assert(label_key("PreferenceUpdate"@) =~= "preferenceupdate"@);
}

proof fn lemma_key_roundtrip_usertrait()
    ensures
        label_key(ThoughtType::UserTrait.name()) == ThoughtType::UserTrait.key(),
        ThoughtType::UserTrait.name().len() == ThoughtType::UserTrait.key().len(),
        thought_type_from_key(ThoughtType::UserTrait.key()) == Some(ThoughtType::UserTrait),
{
    reveal_with_fuel(label_key, 24);
    reveal_strlit("UserTrait");
    reveal_strlit("preferenceupdate");
    reveal_strlit("usertrait");
    assert(label_key("UserTrait"@) =~= "usertrait"@);
    assert("usertrait"@.len() != "preferenceupdate"@.len());
}

proof fn lemma_key_roundtrip_relationshipupdate()
    ensures
        label_key(ThoughtType::RelationshipUpdate.name()) == ThoughtType::RelationshipUpdate.key(),
        ThoughtType::RelationshipUpdate.name().len() == ThoughtType::RelationshipUpdate.key().len(),
        thought_type_from_key(ThoughtType::RelationshipUpdate.key()) == Some(ThoughtType::RelationshipUpdate),
{
    reveal_with_fuel(label_key, 24);
    reveal_strlit("RelationshipUpdate");
    reveal_strlit("preferenceupdate");
    reveal_strlit("usertrait");
    reveal_strlit("relationshipupdate");
    assert(label_key("RelationshipUpdate"@) =~= "relationshipupdate"@);
    assert("relationshipupdate"@.len() != "preferenceupdate"@.len());
    assert("relationshipupdate"@.len() != "usertrait"@.len());
}

proof fn lemma_key_roundtrip_finding()
    ensures
        label_key(ThoughtType::Finding.name()) == ThoughtType::Finding.key(),
        ThoughtType::Finding.name().len() == ThoughtType::Finding.key().len(),
        thought_type_from_key(ThoughtType::Finding.key()) == Some(ThoughtType::Finding),
{
    reveal_with_fuel(label_key, 24);
    reveal_strlit("Finding");
    reveal_strlit("preferenceupdate");
    reveal_strlit("usertrait");
    reveal_strlit("relationshipupdate");
    reveal_strlit("finding");
    assert(label_key("Finding"@) =~= "finding"@);
    assert("finding"@.len() != "preferenceupdate"@.len());
    assert("finding"@.len() != "usertrait"@.len());
    assert("finding"@.len() != "relationshipupdate"@.len());
}

proof fn lemma_key_roundtrip_insight()
    ensures
        label_key(ThoughtType::Insight.name()) == ThoughtType::Insight.key(),
        ThoughtType::Insight.name().len() == ThoughtType::Insight.key().len(),
        thought_type_from_key(ThoughtType::Insight.key()) == Some(ThoughtType::Insight),
{
    reveal_with_fuel(label_key, 24);
    reveal_strlit("Insight");
    reveal_strlit("preferenceupdate");
    reveal_strlit("usertrait");
    reveal_strlit("relationshipupdate");
    reveal_strlit("finding");
    reveal_strlit("insight");
    assert(label_key("Insight"@) =~= "insight"@);
    assert("insight"@.len() != "preferenceupdate"@.len());
    assert("insight"@.len() != "usertrait"@.len());
    assert("insight"@.len() != "relationshipupdate"@.len());
    assert("insight"@[0] != "finding"@[0]);
}

proof fn lemma_key_roundtrip_factlearned()
    ensures
        label_key(ThoughtType::FactLearned.name()) == ThoughtType::FactLearned.key(),
        ThoughtType::FactLearned.name().len() == ThoughtType::FactLearned.key().len(),
        thought_type_from_key(ThoughtType::FactLearned.key()) == Some(ThoughtType::FactLearned),
{
    reveal_with_fuel(label_key, 24);
    reveal_strlit("FactLearned");
    reveal_strlit("preferenceupdate");
    reveal_strlit("usertrait");
    reveal_strlit("relationshipupdate");
    reveal_strlit("finding");
    reveal_strlit("insight");
    reveal_strlit("factlearned");
    assert(label_key("FactLearned"@) =~= "factlearned"@);
    assert("factlearned"@.len() != "preferenceupdate"@.len());
    assert("factlearned"@.len() != "usertrait"@.len());
    assert("factlearned"@.len() != "relationshipupdate"@.len());
    assert("factlearned"@.len() != "finding"@.len());
    assert("factlearned"@.len() != "insight"@.len());
}

proof fn lemma_key_roundtrip_patterndetected()
    ensures
        label_key(ThoughtType::PatternDetected.name()) == ThoughtType::PatternDetected.key(),
        ThoughtType::PatternDetected.name().len() == ThoughtType::PatternDetected.key().len(),
        thought_type_from_key(ThoughtType::PatternDetected.key()) == Some(ThoughtType::PatternDetected),
{
    reveal_with_fuel(label_key, 24);
    reveal_strlit("PatternDetected");
    reveal_strlit("preferenceupdate");
    reveal_strlit("usertrait");
    reveal_strlit("relationshipupdate");
    reveal_strlit("finding");
    reveal_strlit("insight");
    reveal_strlit("factlearned");
    reveal_strlit("patterndetected");
    assert(label_key("PatternDetected"@) =~= "patterndetected"@);
    assert("patterndetected"@.len() != "preferenceupdate"@.len());
    assert("patterndetected"@.len() != "usertrait"@.len());
    assert("patterndetected"@.len() != "relationshipupdate"@.len());
    assert("patterndetected"@.len() != "finding"@.len());
    assert("patterndetected"@.len() != "insight"@.len());
    assert("patterndetected"@.len() != "factlearned"@.len());
}

proof fn lemma_key_roundtrip_hypothesis()
    ensures
        label_key(ThoughtType::Hypothesis.name()) == ThoughtType::Hypothesis.key(),
        ThoughtType::Hypothesis.name().len() == ThoughtType::Hypothesis.key().len(),
        thought_type_from_key(ThoughtType::Hypothesis.key()) == Some(ThoughtType::Hypothesis),
{
    reveal_with_fuel(label_key, 24);
    reveal_strlit("Hypothesis");
    reveal_strlit("preferenceupdate");
    reveal_strlit("usertrait");
    reveal_strlit("relationshipupdate");
    reveal_strlit("finding");
    reveal_strlit("insight");
    reveal_strlit("factlearned");
    reveal_strlit("patterndetected");
    reveal_strlit("hypothesis");
    assert(label_key("Hypothesis"@) =~= "hypothesis"@);
    assert("hypothesis"@.len() != "preferenceupdate"@.len());
    assert("hypothesis"@.len() != "usertrait"@.len());
    assert("hypothesis"@.len() != "relationshipupdate"@.len());
    assert("hypothesis"@.len() != "finding"@.len());
    assert("hypothesis"@.len() != "insight"@.len());
    assert("hypothesis"@.len() != "factlearned"@.len());
    assert("hypothesis"@.len() != "patterndetected"@.len());
}

proof fn lemma_key_roundtrip_mistake()
    ensures
        label_key(ThoughtType::Mistake.name()) == ThoughtType::Mistake.key(),
        ThoughtType::Mistake.name().len() == ThoughtType::Mistake.key().len(),
        thought_type_from_key(ThoughtType::Mistake.key()) == Some(ThoughtType::Mistake),
{
    reveal_with_fuel(label_key, 24);
    reveal_strlit("Mistake");
    reveal_strlit("preferenceupdate");
    reveal_strlit("usertrait");
    reveal_strlit("relationshipupdate");
    reveal_strlit("finding");
    reveal_strlit("insight");
    reveal_strlit("factlearned");
    reveal_strlit("patterndetected");
    reveal_strlit("hypothesis");
    reveal_strlit("mistake");
    assert(label_key("Mistake"@) =~= "mistake"@);
    assert("mistake"@.len() != "preferenceupdate"@.len());
    assert("mistake"@.len() != "usertrait"@.len());
    assert("mistake"@.len() != "relationshipupdate"@.len());
    assert("mistake"@[0] != "finding"@[0]);
    assert("mistake"@[0] != "insight"@[0]);
    assert("mistake"@.len() != "factlearned"@.len());
    assert("mistake"@.len() != "patterndetected"@.len());
    assert("mistake"@.len() != "hypothesis"@.len());
}

proof fn lemma_key_roundtrip_correction()
    ensures
        label_key(ThoughtType::Correction.name()) == ThoughtType::Correction.key(),
        ThoughtType::Correction.name().len() == ThoughtType::Correction.key().len(),
        thought_type_from_key(ThoughtType::Correction.key()) == Some(ThoughtType::Correction),
{
    reveal_with_fuel(label_key, 24);
    reveal_strlit("Correction");
    reveal_strlit("preferenceupdate");
    reveal_strlit("usertrait");
    reveal_strlit("relationshipupdate");
    reveal_strlit("finding");
    reveal_strlit("insight");
    reveal_strlit("factlearned");
    reveal_strlit("patterndetected");
    reveal_strlit("hypothesis");
    reveal_strlit("mistake");
    reveal_strlit("correction");
    assert(label_key("Correction"@) =~= "correction"@);
    assert("correction"@.len() != "preferenceupdate"@.len());
    assert("correction"@.len() != "usertrait"@.len());
    assert("correction"@.len() != "relationshipupdate"@.len());
    assert("correction"@.len() != "finding"@.len());
    assert("correction"@.len() != "insight"@.len());
    assert("correction"@.len() != "factlearned"@.len());
    assert("correction"@.len() != "patterndetected"@.len());
    assert("correction"@[0] != "hypothesis"@[0]);
    assert("correction"@.len() != "mistake"@.len());
}

proof fn lemma_key_roundtrip_lessonlearned()
    ensures
        label_key(ThoughtType::LessonLearned.name()) == ThoughtType::LessonLearned.key(),
        ThoughtType::LessonLearned.name().len() == ThoughtType::LessonLearned.key().len(),
        thought_type_from_key(ThoughtType::LessonLearned.key()) == Some(ThoughtType::LessonLearned),
{
    reveal_with_fuel(label_key, 24);
    reveal_strlit("LessonLearned");
    reveal_strlit("preferenceupdate");
    reveal_strlit("usertrait");
    reveal_strlit("relationshipupdate");
    reveal_strlit("finding");
    reveal_strlit("insight");
    reveal_strlit("factlearned");
    reveal_strlit("patterndetected");
    reveal_strlit("hypothesis");
    reveal_strlit("mistake");
    reveal_strlit("correction");
    reveal_strlit("lessonlearned");
    assert(label_key("LessonLearned"@) =~= "lessonlearned"@);
    assert("lessonlearned"@.len() != "preferenceupdate"@.len());
    assert("lessonlearned"@.len() != "usertrait"@.len());
    assert("lessonlearned"@.len() != "relationshipupdate"@.len());
    assert("lessonlearned"@.len() != "finding"@.len());
    assert("lessonlearned"@.len() != "insight"@.len());
    assert("lessonlearned"@.len() != "factlearned"@.len());
    assert("lessonlearned"@.len() != "patterndetected"@.len());
    assert("lessonlearned"@.len() != "hypothesis"@.len());
    assert("lessonlearned"@.len() != "mistake"@.len());
    assert("lessonlearned"@.len() != "correction"@.len());
}

proof fn lemma_key_roundtrip_assumptioninvalidated()
    ensures
        label_key(ThoughtType::AssumptionInvalidated.name()) == ThoughtType::AssumptionInvalidated.key(),
        ThoughtType::AssumptionInvalidated.name().len() == ThoughtType::AssumptionInvalidated.key().len(),
        thought_type_from_key(ThoughtType::AssumptionInvalidated.key()) == Some(ThoughtType::AssumptionInvalidated),
{
    reveal_with_fuel(label_key, 24);
    reveal_strlit("AssumptionInvalidated");
    reveal_strlit("preferenceupdate");
    reveal_strlit("usertrait");
    reveal_strlit("relationshipupdate");
    reveal_strlit("finding");
    reveal_strlit("insight");
    reveal_strlit("factlearned");
    reveal_strlit("patterndetected");
    reveal_strlit("hypothesis");
    reveal_strlit("mistake");
    reveal_strlit("correction");
    reveal_strlit("lessonlearned");
    reveal_strlit("assumptioninvalidated");
    assert(label_key("AssumptionInvalidated"@) =~= "assumptioninvalidated"@);
    assert("assumptioninvalidated"@.len() != "preferenceupdate"@.len());
    assert("assumptioninvalidated"@.len() != "usertrait"@.len());
    assert("assumptioninvalidated"@.len() != "relationshipupdate"@.len());
    assert("assumptioninvalidated"@.len() != "finding"@.len());
    assert("assumptioninvalidated"@.len() != "insight"@.len());
    assert("assumptioninvalidated"@.len() != "factlearned"@.len());
    assert("assumptioninvalidated"@.len() != "patterndetected"@.len());
    assert("assumptioninvalidated"@.len() != "hypothesis"@.len());
    assert("assumptioninvalidated"@.len() != "mistake"@.len());
    assert("assumptioninvalidated"@.len() != "correction"@.len());
    assert("assumptioninvalidated"@.len() != "lessonlearned"@.len());
}

proof fn lemma_key_roundtrip_constraint()
    ensures
        label_key(ThoughtType::Constraint.name()) == ThoughtType::Constraint.key(),
        ThoughtType::Constraint.name().len() == ThoughtType::Constraint.key().len(),
        thought_type_from_key(ThoughtType::Constraint.key()) == Some(ThoughtType::Constraint),
{
    reveal_with_fuel(label_key, 24);
    reveal_strlit("Constraint");
    reveal_strlit("preferenceupdate");
    reveal_strlit("usertrait");
    reveal_strlit("relationshipupdate");
    reveal_strlit("finding");
    reveal_strlit("insight");
    reveal_strlit("factlearned");
    reveal_strlit("patterndetected");
    reveal_strlit("hypothesis");
    reveal_strlit("mistake");
    reveal_strlit("correction");
    reveal_strlit("lessonlearned");
    reveal_strlit("assumptioninvalidated");
    reveal_strlit("constraint");
    assert(label_key("Constraint"@) =~= "constraint"@);
    assert("constraint"@.len() != "preferenceupdate"@.len());
    assert("constraint"@.len() != "usertrait"@.len());
    assert("constraint"@.len() != "relationshipupdate"@.len());
    assert("constraint"@.len() != "finding"@.len());
    assert("constraint"@.len() != "insight"@.len());
    assert("constraint"@.len() != "factlearned"@.len());
    assert("constraint"@.len() != "patterndetected"@.len());
    assert("constraint"@[0] != "hypothesis"@[0]);
    assert("constraint"@.len() != "mistake"@.len());
    assert("constraint"@[2] != "correction"@[2]);
    assert("constraint"@.len() != "lessonlearned"@.len());
    assert("constraint"@.len() != "assumptioninvalidated"@.len());
}

proof fn lemma_key_roundtrip_plan()
    ensures
        label_key(ThoughtType::Plan.name()) == ThoughtType::Plan.key(),
        ThoughtType::Plan.name().len() == ThoughtType::Plan.key().len(),
        thought_type_from_key(ThoughtType::Plan.key()) == Some(ThoughtType::Plan),
{
    reveal_with_fuel(label_key, 24);
    reveal_strlit("Plan");
    reveal_strlit("preferenceupdate");
    reveal_strlit("usertrait");
    reveal_strlit("relationshipupdate");
    reveal_strlit("finding");
    reveal_strlit("insight");
    reveal_strlit("factlearned");
    reveal_strlit("patterndetected");
    reveal_strlit("hypothesis");
    reveal_strlit("mistake");
    reveal_strlit("correction");
    reveal_strlit("lessonlearned");
    reveal_strlit("assumptioninvalidated");
    reveal_strlit("constraint");
    reveal_strlit("plan");
    assert(label_key("Plan"@) =~= "plan"@);
    assert("plan"@.len() != "preferenceupdate"@.len());
    assert("plan"@.len() != "usertrait"@.len());
    assert("plan"@.len() != "relationshipupdate"@.len());
    assert("plan"@.len() != "finding"@.len());
    assert("plan"@.len() != "insight"@.len());
    assert("plan"@.len() != "factlearned"@.len());
    assert("plan"@.len() != "patterndetected"@.len());
    assert("plan"@.len() != "hypothesis"@.len());
    assert("plan"@.len() != "mistake"@.len());
    assert("plan"@.len() != "correction"@.len());
    assert("plan"@.len() != "lessonlearned"@.len());
    assert("plan"@.len() != "assumptioninvalidated"@.len());
    assert("plan"@.len() != "constraint"@.len());
}

proof fn lemma_key_roundtrip_subgoal()
    ensures
        label_key(ThoughtType::Subgoal.name()) == ThoughtType::Subgoal.key(),
        ThoughtType::Subgoal.name().len() == ThoughtType::Subgoal.key().len(),
        thought_type_from_key(ThoughtType::Subgoal.key()) == Some(ThoughtType::Subgoal),
{
    reveal_with_fuel(label_key, 24);
    reveal_strlit("Subgoal");
    reveal_strlit("preferenceupdate");
    reveal_strlit("usertrait");
    reveal_strlit("relationshipupdate");
    reveal_strlit("finding");
    reveal_strlit("insight");
    reveal_strlit("factlearned");
    reveal_strlit("patterndetected");
    reveal_strlit("hypothesis");
    reveal_strlit("mistake");
    reveal_strlit("correction");
    reveal_strlit("lessonlearned");
    reveal_strlit("assumptioninvalidated");
    reveal_strlit("constraint");
    reveal_strlit("plan");
    reveal_strlit("subgoal");
    assert(label_key("Subgoal"@) =~= "subgoal"@);
    assert("subgoal"@.len() != "preferenceupdate"@.len());
    assert("subgoal"@.len() != "usertrait"@.len());
    assert("subgoal"@.len() != "relationshipupdate"@.len());
    assert("subgoal"@[0] != "finding"@[0]);
    assert("subgoal"@[0] != "insight"@[0]);
    assert("subgoal"@.len() != "factlearned"@.len());
    assert("subgoal"@.len() != "patterndetected"@.len());
    assert("subgoal"@.len() != "hypothesis"@.len());
    assert("subgoal"@[0] != "mistake"@[0]);
    assert("subgoal"@.len() != "correction"@.len());
    assert("subgoal"@.len() != "lessonlearned"@.len());
    assert("subgoal"@.len() != "assumptioninvalidated"@.len());
    assert("subgoal"@.len() != "constraint"@.len());
    assert("subgoal"@.len() != "plan"@.len());
}

proof fn lemma_key_roundtrip_decision()
    ensures
        label_key(ThoughtType::Decision.name()) == ThoughtType::Decision.key(),
        ThoughtType::Decision.name().len() == ThoughtType::Decision.key().len(),
        thought_type_from_key(ThoughtType::Decision.key()) == Some(ThoughtType::Decision),
{
    reveal_with_fuel(label_key, 24);
    reveal_strlit("Decision");
    reveal_strlit("preferenceupdate");
    reveal_strlit("usertrait");
    reveal_strlit("relationshipupdate");
    reveal_strlit("finding");
    reveal_strlit("insight");
    reveal_strlit("factlearned");
    reveal_strlit("patterndetected");
    reveal_strlit("hypothesis");
    reveal_strlit("mistake");
    reveal_strlit("correction");
    reveal_strlit("lessonlearned");
    reveal_strlit("assumptioninvalidated");
    reveal_strlit("constraint");
    reveal_strlit("plan");
    reveal_strlit("subgoal");
    reveal_strlit("decision");
    assert(label_key("Decision"@) =~= "decision"@);
    assert("decision"@.len() != "preferenceupdate"@.len());
    assert("decision"@.len() != "usertrait"@.len());
    assert("decision"@.len() != "relationshipupdate"@.len());
    assert("decision"@.len() != "finding"@.len());
    assert("decision"@.len() != "insight"@.len());
    assert("decision"@.len() != "factlearned"@.len());
    assert("decision"@.len() != "patterndetected"@.len());
    assert("decision"@.len() != "hypothesis"@.len());
    assert("decision"@.len() != "mistake"@.len());
    assert("decision"@.len() != "correction"@.len());
    assert("decision"@.len() != "lessonlearned"@.len());
    assert("decision"@.len() != "assumptioninvalidated"@.len());
    assert("decision"@.len() != "constraint"@.len());
    assert("decision"@.len() != "plan"@.len());
    assert("decision"@.len() != "subgoal"@.len());
}

proof fn lemma_key_roundtrip_strategyshift()
    ensures
        label_key(ThoughtType::StrategyShift.name()) == ThoughtType::StrategyShift.key(),
        ThoughtType::StrategyShift.name().len() == ThoughtType::StrategyShift.key().len(),
        thought_type_from_key(ThoughtType::StrategyShift.key()) == Some(ThoughtType::StrategyShift),
{
    reveal_with_fuel(label_key, 24);
    reveal_strlit("StrategyShift");
    reveal_strlit("preferenceupdate");
    reveal_strlit("usertrait");
    reveal_strlit("relationshipupdate");
    reveal_strlit("finding");
    reveal_strlit("insight");
    reveal_strlit("factlearned");
    reveal_strlit("patterndetected");
    reveal_strlit("hypothesis");
    reveal_strlit("mistake");
    reveal_strlit("correction");
    reveal_strlit("lessonlearned");
    reveal_strlit("assumptioninvalidated");
    reveal_strlit("constraint");
    reveal_strlit("plan");
    reveal_strlit("subgoal");
    reveal_strlit("decision");
    reveal_strlit("strategyshift");
    assert(label_key("StrategyShift"@) =~= "strategyshift"@);
    assert("strategyshift"@.len() != "preferenceupdate"@.len());
    assert("strategyshift"@.len() != "usertrait"@.len());
    assert("strategyshift"@.len() != "relationshipupdate"@.len());
    assert("strategyshift"@.len() != "finding"@.len());
    assert("strategyshift"@.len() != "insight"@.len());
    assert("strategyshift"@.len() != "factlearned"@.len());
    assert("strategyshift"@.len() != "patterndetected"@.len());
    assert("strategyshift"@.len() != "hypothesis"@.len());
    assert("strategyshift"@.len() != "mistake"@.len());
    assert("strategyshift"@.len() != "correction"@.len());
    assert("strategyshift"@[0] != "lessonlearned"@[0]);
    assert("strategyshift"@.len() != "assumptioninvalidated"@.len());
    assert("strategyshift"@.len() != "constraint"@.len());
    assert("strategyshift"@.len() != "plan"@.len());
    assert("strategyshift"@.len() != "subgoal"@.len());
    assert("strategyshift"@.len() != "decision"@.len());
}

proof fn lemma_key_roundtrip_wonder()
    ensures
        label_key(ThoughtType::Wonder.name()) == ThoughtType::Wonder.key(),
        ThoughtType::Wonder.name().len() == ThoughtType::Wonder.key().len(),
        thought_type_from_key(ThoughtType::Wonder.key()) == Some(ThoughtType::Wonder),
{
    reveal_with_fuel(label_key, 24);
    reveal_strlit("Wonder");
    reveal_strlit("preferenceupdate");
    reveal_strlit("usertrait");
    reveal_strlit("relationshipupdate");
    reveal_strlit("finding");
    reveal_strlit("insight");
    reveal_strlit("factlearned");
    reveal_strlit("patterndetected");
    reveal_strlit("hypothesis");
    reveal_strlit("mistake");
    reveal_strlit("correction");
    reveal_strlit("lessonlearned");
    reveal_strlit("assumptioninvalidated");
    reveal_strlit("constraint");
    reveal_strlit("plan");
    reveal_strlit("subgoal");
    reveal_strlit("decision");
    reveal_strlit("strategyshift");
    reveal_strlit("wonder");
    assert(label_key("Wonder"@) =~= "wonder"@);
    assert("wonder"@.len() != "preferenceupdate"@.len());
    assert("wonder"@.len() != "usertrait"@.len());
    assert("wonder"@.len() != "relationshipupdate"@.len());
    assert("wonder"@.len() != "finding"@.len());
    assert("wonder"@.len() != "insight"@.len());
    assert("wonder"@.len() != "factlearned"@.len());
    assert("wonder"@.len() != "patterndetected"@.len());
    assert("wonder"@.len() != "hypothesis"@.len());
    assert("wonder"@.len() != "mistake"@.len());
    assert("wonder"@.len() != "correction"@.len());
    assert("wonder"@.len() != "lessonlearned"@.len());
    assert("wonder"@.len() != "assumptioninvalidated"@.len());
    assert("wonder"@.len() != "constraint"@.len());
    assert("wonder"@.len() != "plan"@.len());
    assert("wonder"@.len() != "subgoal"@.len());
    assert("wonder"@.len() != "decision"@.len());
    assert("wonder"@.len() != "strategyshift"@.len());
}

proof fn lemma_key_roundtrip_question()
    ensures
        label_key(ThoughtType::Question.name()) == ThoughtType::Question.key(),
        ThoughtType::Question.name().len() == ThoughtType::Question.key().len(),
        thought_type_from_key(ThoughtType::Question.key()) == Some(ThoughtType::Question),
{
    reveal_with_fuel(label_key, 24);
    reveal_strlit("Question");
    reveal_strlit("preferenceupdate");
    reveal_strlit("usertrait");
    reveal_strlit("relationshipupdate");
    reveal_strlit("finding");
    reveal_strlit("insight");
    reveal_strlit("factlearned");
    reveal_strlit("patterndetected");
    reveal_strlit("hypothesis");
    reveal_strlit("mistake");
    reveal_strlit("correction");
    reveal_strlit("lessonlearned");
    reveal_strlit("assumptioninvalidated");
    reveal_strlit("constraint");
    reveal_strlit("plan");
    reveal_strlit("subgoal");
    reveal_strlit("decision");
    reveal_strlit("strategyshift");
    reveal_strlit("wonder");
    reveal_strlit("question");
    assert(label_key("Question"@) =~= "question"@);
    assert("question"@.len() != "preferenceupdate"@.len());
    assert("question"@.len() != "usertrait"@.len());
    assert("question"@.len() != "relationshipupdate"@.len());
    assert("question"@.len() != "finding"@.len());
    assert("question"@.len() != "insight"@.len());
    assert("question"@.len() != "factlearned"@.len());
    assert("question"@.len() != "patterndetected"@.len());
    assert("question"@.len() != "hypothesis"@.len());
    assert("question"@.len() != "mistake"@.len());
    assert("question"@.len() != "correction"@.len());
    assert("question"@.len() != "lessonlearned"@.len());
    assert("question"@.len() != "assumptioninvalidated"@.len());
    assert("question"@.len() != "constraint"@.len());
    assert("question"@.len() != "plan"@.len());
    assert("question"@.len() != "subgoal"@.len());
    assert("question"@[0] != "decision"@[0]);
    assert("question"@.len() != "strategyshift"@.len());
    assert("question"@.len() != "wonder"@.len());
}

proof fn lemma_key_roundtrip_idea()
    ensures
        label_key(ThoughtType::Idea.name()) == ThoughtType::Idea.key(),
        ThoughtType::Idea.name().len() == ThoughtType::Idea.key().len(),
        thought_type_from_key(ThoughtType::Idea.key()) == Some(ThoughtType::Idea),
{
    reveal_with_fuel(label_key, 24);
    reveal_strlit("Idea");
    reveal_strlit("preferenceupdate");
    reveal_strlit("usertrait");
    reveal_strlit("relationshipupdate");
    reveal_strlit("finding");
    reveal_strlit("insight");
    reveal_strlit("factlearned");
    reveal_strlit("patterndetected");
    reveal_strlit("hypothesis");
    reveal_strlit("mistake");
    reveal_strlit("correction");
    reveal_strlit("lessonlearned");
    reveal_strlit("assumptioninvalidated");
    reveal_strlit("constraint");
    reveal_strlit("plan");
    reveal_strlit("subgoal");
    reveal_strlit("decision");
    reveal_strlit("strategyshift");
    reveal_strlit("wonder");
    reveal_strlit("question");
    reveal_strlit("idea");
    assert(label_key("Idea"@) =~= "idea"@);
    assert("idea"@.len() != "preferenceupdate"@.len());
    assert("idea"@.len() != "usertrait"@.len());
    assert("idea"@.len() != "relationshipupdate"@.len());
    assert("idea"@.len() != "finding"@.len());
    assert("idea"@.len() != "insight"@.len());
    assert("idea"@.len() != "factlearned"@.len());
    assert("idea"@.len() != "patterndetected"@.len());
    assert("idea"@.len() != "hypothesis"@.len());
    assert("idea"@.len() != "mistake"@.len());
    assert("idea"@.len() != "correction"@.len());
    assert("idea"@.len() != "lessonlearned"@.len());
    assert("idea"@.len() != "assumptioninvalidated"@.len());
    assert("idea"@.len() != "constraint"@.len());
    assert("idea"@[0] != "plan"@[0]);
    assert("idea"@.len() != "subgoal"@.len());
    assert("idea"@.len() != "decision"@.len());
    assert("idea"@.len() != "strategyshift"@.len());
    assert("idea"@.len() != "wonder"@.len());
    assert("idea"@.len() != "question"@.len());
}

proof fn lemma_key_roundtrip_experiment()
    ensures
        label_key(ThoughtType::Experiment.name()) == ThoughtType::Experiment.key(),
        ThoughtType::Experiment.name().len() == ThoughtType::Experiment.key().len(),
        thought_type_from_key(ThoughtType::Experiment.key()) == Some(ThoughtType::Experiment),
{
    reveal_with_fuel(label_key, 24);
    reveal_strlit("Experiment");
    reveal_strlit("preferenceupdate");
    reveal_strlit("usertrait");
    reveal_strlit("relationshipupdate");
    reveal_strlit("finding");
    reveal_strlit("insight");
    reveal_strlit("factlearned");
    reveal_strlit("patterndetected");
    reveal_strlit("hypothesis");
    reveal_strlit("mistake");
    reveal_strlit("correction");
    reveal_strlit("lessonlearned");
    reveal_strlit("assumptioninvalidated");
    reveal_strlit("constraint");
    reveal_strlit("plan");
    reveal_strlit("subgoal");
    reveal_strlit("decision");
    reveal_strlit("strategyshift");
    reveal_strlit("wonder");
    reveal_strlit("question");
    reveal_strlit("idea");
    reveal_strlit("experiment");
    assert(label_key("Experiment"@) =~= "experiment"@);
    assert("experiment"@.len() != "preferenceupdate"@.len());
    assert("experiment"@.len() != "usertrait"@.len());
    assert("experiment"@.len() != "relationshipupdate"@.len());
    assert("experiment"@.len() != "finding"@.len());
    assert("experiment"@.len() != "insight"@.len());
    assert("experiment"@.len() != "factlearned"@.len());
    assert("experiment"@.len() != "patterndetected"@.len());
    assert("experiment"@[0] != "hypothesis"@[0]);
    assert("experiment"@.len() != "mistake"@.len());
    assert("experiment"@[0] != "correction"@[0]);
    assert("experiment"@.len() != "lessonlearned"@.len());
    assert("experiment"@.len() != "assumptioninvalidated"@.len());
    assert("experiment"@[0] != "constraint"@[0]);
    assert("experiment"@.len() != "plan"@.len());
    assert("experiment"@.len() != "subgoal"@.len());
    assert("experiment"@.len() != "decision"@.len());
    assert("experiment"@.len() != "strategyshift"@.len());
    assert("experiment"@.len() != "wonder"@.len());
    assert("experiment"@.len() != "question"@.len());
    assert("experiment"@.len() != "idea"@.len());
}

proof fn lemma_key_roundtrip_actiontaken()
    ensures
        label_key(ThoughtType::ActionTaken.name()) == ThoughtType::ActionTaken.key(),
        ThoughtType::ActionTaken.name().len() == ThoughtType::ActionTaken.key().len(),
        thought_type_from_key(ThoughtType::ActionTaken.key()) == Some(ThoughtType::ActionTaken),
{
    reveal_with_fuel(label_key, 24);
    reveal_strlit("ActionTaken");
    reveal_strlit("preferenceupdate");
    reveal_strlit("usertrait");
    reveal_strlit("relationshipupdate");
    reveal_strlit("finding");
    reveal_strlit("insight");
    reveal_strlit("factlearned");
    reveal_strlit("patterndetected");
    reveal_strlit("hypothesis");
    reveal_strlit("mistake");
    reveal_strlit("correction");
    reveal_strlit("lessonlearned");
    reveal_strlit("assumptioninvalidated");
    reveal_strlit("constraint");
    reveal_strlit("plan");
    reveal_strlit("subgoal");
    reveal_strlit("decision");
    reveal_strlit("strategyshift");
    reveal_strlit("wonder");
    reveal_strlit("question");
    reveal_strlit("idea");
    reveal_strlit("experiment");
    reveal_strlit("actiontaken");
    assert(label_key("ActionTaken"@) =~= "actiontaken"@);
    assert("actiontaken"@.len() != "preferenceupdate"@.len());
    assert("actiontaken"@.len() != "usertrait"@.len());
    assert("actiontaken"@.len() != "relationshipupdate"@.len());
    assert("actiontaken"@.len() != "finding"@.len());
    assert("actiontaken"@.len() != "insight"@.len());
    assert("actiontaken"@[0] != "factlearned"@[0]);
    assert("actiontaken"@.len() != "patterndetected"@.len());
    assert("actiontaken"@.len() != "hypothesis"@.len());
    assert("actiontaken"@.len() != "mistake"@.len());
    assert("actiontaken"@.len() != "correction"@.len());
    assert("actiontaken"@.len() != "lessonlearned"@.len());
    assert("actiontaken"@.len() != "assumptioninvalidated"@.len());
    assert("actiontaken"@.len() != "constraint"@.len());
    assert("actiontaken"@.len() != "plan"@.len());
    assert("actiontaken"@.len() != "subgoal"@.len());
    assert("actiontaken"@.len() != "decision"@.len());
    assert("actiontaken"@.len() != "strategyshift"@.len());
    assert("actiontaken"@.len() != "wonder"@.len());
    assert("actiontaken"@.len() != "question"@.len());
    assert("actiontaken"@.len() != "idea"@.len());
    assert("actiontaken"@.len() != "experiment"@.len());
}

proof fn lemma_key_roundtrip_taskcomplete()
    ensures
        label_key(ThoughtType::TaskComplete.name()) == ThoughtType::TaskComplete.key(),
        ThoughtType::TaskComplete.name().len() == ThoughtType::TaskComplete.key().len(),
        thought_type_from_key(ThoughtType::TaskComplete.key()) == Some(ThoughtType::TaskComplete),
{
    reveal_with_fuel(label_key, 24);
    reveal_strlit("TaskComplete");
    reveal_strlit("preferenceupdate");
    reveal_strlit("usertrait");
    reveal_strlit("relationshipupdate");
    reveal_strlit("finding");
    reveal_strlit("insight");
    reveal_strlit("factlearned");
    reveal_strlit("patterndetected");
    reveal_strlit("hypothesis");
    reveal_strlit("mistake");
    reveal_strlit("correction");
    reveal_strlit("lessonlearned");
    reveal_strlit("assumptioninvalidated");
    reveal_strlit("constraint");
    reveal_strlit("plan");
    reveal_strlit("subgoal");
    reveal_strlit("decision");
    reveal_strlit("strategyshift");
    reveal_strlit("wonder");
    reveal_strlit("question");
    reveal_strlit("idea");
    reveal_strlit("experiment");
    reveal_strlit("actiontaken");
    reveal_strlit("taskcomplete");
    assert(label_key("TaskComplete"@) =~= "taskcomplete"@);
    assert("taskcomplete"@.len() != "preferenceupdate"@.len());
    assert("taskcomplete"@.len() != "usertrait"@.len());
    assert("taskcomplete"@.len() != "relationshipupdate"@.len());
    assert("taskcomplete"@.len() != "finding"@.len());
    assert("taskcomplete"@.len() != "insight"@.len());
    assert("taskcomplete"@.len() != "factlearned"@.len());
    assert("taskcomplete"@.len() != "patterndetected"@.len());
    assert("taskcomplete"@.len() != "hypothesis"@.len());
    assert("taskcomplete"@.len() != "mistake"@.len());
    assert("taskcomplete"@.len() != "correction"@.len());
    assert("taskcomplete"@.len() != "lessonlearned"@.len());
    assert("taskcomplete"@.len() != "assumptioninvalidated"@.len());
    assert("taskcomplete"@.len() != "constraint"@.len());
    assert("taskcomplete"@.len() != "plan"@.len());
    assert("taskcomplete"@.len() != "subgoal"@.len());
    assert("taskcomplete"@.len() != "decision"@.len());
    assert("taskcomplete"@.len() != "strategyshift"@.len());
    assert("taskcomplete"@.len() != "wonder"@.len());
    assert("taskcomplete"@.len() != "question"@.len());
    assert("taskcomplete"@.len() != "idea"@.len());
    assert("taskcomplete"@.len() != "experiment"@.len());
    assert("taskcomplete"@.len() != "actiontaken"@.len());
}

proof fn lemma_key_roundtrip_checkpoint()
    ensures
        label_key(ThoughtType::Checkpoint.name()) == ThoughtType::Checkpoint.key(),
        ThoughtType::Checkpoint.name().len() == ThoughtType::Checkpoint.key().len(),
        thought_type_from_key(ThoughtType::Checkpoint.key()) == Some(ThoughtType::Checkpoint),
{
    reveal_with_fuel(label_key, 24);
    reveal_strlit("Checkpoint");
    reveal_strlit("preferenceupdate");
    reveal_strlit("usertrait");
    reveal_strlit("relationshipupdate");
    reveal_strlit("finding");
    reveal_strlit("insight");
    reveal_strlit("factlearned");
    reveal_strlit("patterndetected");
    reveal_strlit("hypothesis");
    reveal_strlit("mistake");
    reveal_strlit("correction");
    reveal_strlit("lessonlearned");
    reveal_strlit("assumptioninvalidated");
    reveal_strlit("constraint");
    reveal_strlit("plan");
    reveal_strlit("subgoal");
    reveal_strlit("decision");
    reveal_strlit("strategyshift");
    reveal_strlit("wonder");
    reveal_strlit("question");
    reveal_strlit("idea");
    reveal_strlit("experiment");
    reveal_strlit("actiontaken");
    reveal_strlit("taskcomplete");
    reveal_strlit("memory");
    reveal_strlit("workingmemory");
    reveal_strlit("summary");
    reveal_strlit("compression");
    reveal_strlit("checkpoint");
    reveal_strlit("handoff");
    reveal_strlit("audit");
    reveal_strlit("retrospective");
    reveal_strlit("memory");
    reveal_strlit("workingmemory");
    reveal_strlit("summary");
    reveal_strlit("compression");
    reveal_strlit("checkpoint");
    reveal_strlit("handoff");
    reveal_strlit("audit");
    reveal_strlit("retrospective");
    reveal_strlit("dream");
    assert(label_key("Checkpoint"@) =~= "checkpoint"@);
    assert("checkpoint"@.len() != "preferenceupdate"@.len());
    assert("checkpoint"@.len() != "usertrait"@.len());
    assert("checkpoint"@.len() != "relationshipupdate"@.len());
    assert("checkpoint"@.len() != "finding"@.len());
    assert("checkpoint"@.len() != "insight"@.len());
    assert("checkpoint"@.len() != "factlearned"@.len());
    assert("checkpoint"@.len() != "patterndetected"@.len());
    assert("checkpoint"@[0] != "hypothesis"@[0]);
    assert("checkpoint"@.len() != "mistake"@.len());
    assert("checkpoint"@[1] != "correction"@[1]);
    assert("checkpoint"@.len() != "lessonlearned"@.len());
    assert("checkpoint"@.len() != "assumptioninvalidated"@.len());
    assert("checkpoint"@[1] != "constraint"@[1]);
    assert("checkpoint"@.len() != "plan"@.len());
    assert("checkpoint"@.len() != "subgoal"@.len());
    assert("checkpoint"@.len() != "decision"@.len());
    assert("checkpoint"@.len() != "strategyshift"@.len());
    assert("checkpoint"@.len() != "wonder"@.len());
    assert("checkpoint"@.len() != "question"@.len());
    assert("checkpoint"@.len() != "idea"@.len());
    assert("checkpoint"@[0] != "experiment"@[0]);
    assert("checkpoint"@.len() != "actiontaken"@.len());
    assert("checkpoint"@.len() != "taskcomplete"@.len());
}

proof fn lemma_key_roundtrip_statesnapshot()
    ensures
        label_key(ThoughtType::StateSnapshot.name()) == ThoughtType::StateSnapshot.key(),
        ThoughtType::StateSnapshot.name().len() == ThoughtType::StateSnapshot.key().len(),
        thought_type_from_key(ThoughtType::StateSnapshot.key()) == Some(ThoughtType::StateSnapshot),
{
    reveal_with_fuel(label_key, 24);
    reveal_strlit("StateSnapshot");
    reveal_strlit("preferenceupdate");
    reveal_strlit("usertrait");
    reveal_strlit("relationshipupdate");
    reveal_strlit("finding");
    reveal_strlit("insight");
    reveal_strlit("factlearned");
    reveal_strlit("patterndetected");
    reveal_strlit("hypothesis");
    reveal_strlit("mistake");
    reveal_strlit("correction");
    reveal_strlit("lessonlearned");
    reveal_strlit("assumptioninvalidated");
    reveal_strlit("constraint");
    reveal_strlit("plan");
    reveal_strlit("subgoal");
    reveal_strlit("decision");
    reveal_strlit("strategyshift");
    reveal_strlit("wonder");
    reveal_strlit("question");
    reveal_strlit("idea");
    reveal_strlit("experiment");
    reveal_strlit("actiontaken");
    reveal_strlit("taskcomplete");
    reveal_strlit("checkpoint");
    reveal_strlit("statesnapshot");
    assert(label_key("StateSnapshot"@) =~= "statesnapshot"@);
    assert("statesnapshot"@.len() != "preferenceupdate"@.len());
    assert("statesnapshot"@.len() != "usertrait"@.len());
    assert("statesnapshot"@.len() != "relationshipupdate"@.len());
    assert("statesnapshot"@.len() != "finding"@.len());
    assert("statesnapshot"@.len() != "insight"@.len());
    assert("statesnapshot"@.len() != "factlearned"@.len());
    assert("statesnapshot"@.len() != "patterndetected"@.len());
    assert("statesnapshot"@.len() != "hypothesis"@.len());
    assert("statesnapshot"@.len() != "mistake"@.len());
    assert("statesnapshot"@.len() != "correction"@.len());
    assert("statesnapshot"@[0] != "lessonlearned"@[0]);
    assert("statesnapshot"@.len() != "assumptioninvalidated"@.len());
    assert("statesnapshot"@.len() != "constraint"@.len());
    assert("statesnapshot"@.len() != "plan"@.len());
    assert("statesnapshot"@.len() != "subgoal"@.len());
    assert("statesnapshot"@.len() != "decision"@.len());
    assert("statesnapshot"@[2] != "strategyshift"@[2]);
    assert("statesnapshot"@.len() != "wonder"@.len());
    assert("statesnapshot"@.len() != "question"@.len());
    assert("statesnapshot"@.len() != "idea"@.len());
    assert("statesnapshot"@.len() != "experiment"@.len());
    assert("statesnapshot"@.len() != "actiontaken"@.len());
    assert("statesnapshot"@.len() != "taskcomplete"@.len());
    assert("statesnapshot"@.len() != "checkpoint"@.len());
}

proof fn lemma_key_roundtrip_handoff()
    ensures
        label_key(ThoughtType::Handoff.name()) == ThoughtType::Handoff.key(),
        ThoughtType::Handoff.name().len() == ThoughtType::Handoff.key().len(),
        thought_type_from_key(ThoughtType::Handoff.key()) == Some(ThoughtType::Handoff),
{
    reveal_with_fuel(label_key, 24);
    reveal_strlit("Handoff");
    reveal_strlit("preferenceupdate");
    reveal_strlit("usertrait");
    reveal_strlit("relationshipupdate");
    reveal_strlit("finding");
    reveal_strlit("insight");
    reveal_strlit("factlearned");
    reveal_strlit("patterndetected");
    reveal_strlit("hypothesis");
    reveal_strlit("mistake");
    reveal_strlit("correction");
    reveal_strlit("lessonlearned");
    reveal_strlit("assumptioninvalidated");
    reveal_strlit("constraint");
    reveal_strlit("plan");
    reveal_strlit("subgoal");
    reveal_strlit("decision");
    reveal_strlit("strategyshift");
    reveal_strlit("wonder");
    reveal_strlit("question");
    reveal_strlit("idea");
    reveal_strlit("experiment");
    reveal_strlit("actiontaken");
    reveal_strlit("taskcomplete");
    reveal_strlit("checkpoint");
    reveal_strlit("statesnapshot");
    reveal_strlit("memory");
    reveal_strlit("workingmemory");
    reveal_strlit("summary");
    reveal_strlit("compression");
    reveal_strlit("checkpoint");
    reveal_strlit("handoff");
    reveal_strlit("audit");
    reveal_strlit("retrospective");
    reveal_strlit("dream");
    assert(label_key("Handoff"@) =~= "handoff"@);
    assert("handoff"@.len() != "preferenceupdate"@.len());
    assert("handoff"@.len() != "usertrait"@.len());
    assert("handoff"@.len() != "relationshipupdate"@.len());
    assert("handoff"@[0] != "finding"@[0]);
    assert("handoff"@[0] != "insight"@[0]);
    assert("handoff"@.len() != "factlearned"@.len());
    assert("handoff"@.len() != "patterndetected"@.len());
    assert("handoff"@.len() != "hypothesis"@.len());
    assert("handoff"@[0] != "mistake"@[0]);
    assert("handoff"@.len() != "correction"@.len());
    assert("handoff"@.len() != "lessonlearned"@.len());
    assert("handoff"@.len() != "assumptioninvalidated"@.len());
    assert("handoff"@.len() != "constraint"@.len());
    assert("handoff"@.len() != "plan"@.len());
    assert("handoff"@[0] != "subgoal"@[0]);
    assert("handoff"@.len() != "decision"@.len());
    assert("handoff"@.len() != "strategyshift"@.len());
    assert("handoff"@.len() != "wonder"@.len());
    assert("handoff"@.len() != "question"@.len());
    assert("handoff"@.len() != "idea"@.len());
    assert("handoff"@.len() != "experiment"@.len());
    assert("handoff"@.len() != "actiontaken"@.len());
    assert("handoff"@.len() != "taskcomplete"@.len());
    assert("handoff"@.len() != "checkpoint"@.len());
    assert("handoff"@.len() != "statesnapshot"@.len());
}

proof fn lemma_key_roundtrip_summary()
    ensures
        label_key(ThoughtType::Summary.name()) == ThoughtType::Summary.key(),
        ThoughtType::Summary.name().len() == ThoughtType::Summary.key().len(),
        thought_type_from_key(ThoughtType::Summary.key()) == Some(ThoughtType::Summary),
{
    reveal_with_fuel(label_key, 24);
    reveal_strlit("Summary");
    reveal_strlit("preferenceupdate");
    reveal_strlit("usertrait");
    reveal_strlit("relationshipupdate");
    reveal_strlit("finding");
    reveal_strlit("insight");
    reveal_strlit("factlearned");
    reveal_strlit("patterndetected");
    reveal_strlit("hypothesis");
    reveal_strlit("mistake");
    reveal_strlit("correction");
    reveal_strlit("lessonlearned");
    reveal_strlit("assumptioninvalidated");
    reveal_strlit("constraint");
    reveal_strlit("plan");
    reveal_strlit("subgoal");
    reveal_strlit("decision");
    reveal_strlit("strategyshift");
    reveal_strlit("wonder");
    reveal_strlit("question");
    reveal_strlit("idea");
    reveal_strlit("experiment");
    reveal_strlit("actiontaken");
    reveal_strlit("taskcomplete");
    reveal_strlit("checkpoint");
    reveal_strlit("statesnapshot");
    reveal_strlit("handoff");
    reveal_strlit("memory");
    reveal_strlit("workingmemory");
    reveal_strlit("summary");
    reveal_strlit("compression");
    reveal_strlit("checkpoint");
    reveal_strlit("handoff");
    reveal_strlit("audit");
    reveal_strlit("retrospective");
    reveal_strlit("dream");
    assert(label_key("Summary"@) =~= "summary"@);
    assert("summary"@.len() != "preferenceupdate"@.len());
    assert("summary"@.len() != "usertrait"@.len());
    assert("summary"@.len() != "relationshipupdate"@.len());
    assert("summary"@[0] != "finding"@[0]);
    assert("summary"@[0] != "insight"@[0]);
    assert("summary"@.len() != "factlearned"@.len());
    assert("summary"@.len() != "patterndetected"@.len());
    assert("summary"@.len() != "hypothesis"@.len());
    assert("summary"@[0] != "mistake"@[0]);
    assert("summary"@.len() != "correction"@.len());
    assert("summary"@.len() != "lessonlearned"@.len());
    assert("summary"@.len() != "assumptioninvalidated"@.len());
    assert("summary"@.len() != "constraint"@.len());
    assert("summary"@.len() != "plan"@.len());
    assert("summary"@[2] != "subgoal"@[2]);
    assert("summary"@.len() != "decision"@.len());
    assert("summary"@.len() != "strategyshift"@.len());
    assert("summary"@.len() != "wonder"@.len());
    assert("summary"@.len() != "question"@.len());
    assert("summary"@.len() != "idea"@.len());
    assert("summary"@.len() != "experiment"@.len());
    assert("summary"@.len() != "actiontaken"@.len());
    assert("summary"@.len() != "taskcomplete"@.len());
    assert("summary"@.len() != "checkpoint"@.len());
    assert("summary"@.len() != "statesnapshot"@.len());
    assert("summary"@[0] != "handoff"@[0]);
}

proof fn lemma_key_roundtrip_surprise()
    ensures
        label_key(ThoughtType::Surprise.name()) == ThoughtType::Surprise.key(),
        ThoughtType::Surprise.name().len() == ThoughtType::Surprise.key().len(),
        thought_type_from_key(ThoughtType::Surprise.key()) == Some(ThoughtType::Surprise),
{
    reveal_with_fuel(label_key, 24);
    reveal_strlit("Surprise");
    reveal_strlit("preferenceupdate");
    reveal_strlit("usertrait");
    reveal_strlit("relationshipupdate");
    reveal_strlit("finding");
    reveal_strlit("insight");
    reveal_strlit("factlearned");
    reveal_strlit("patterndetected");
    reveal_strlit("hypothesis");
    reveal_strlit("mistake");
    reveal_strlit("correction");
    reveal_strlit("lessonlearned");
    reveal_strlit("assumptioninvalidated");
    reveal_strlit("constraint");
    reveal_strlit("plan");
    reveal_strlit("subgoal");
    reveal_strlit("decision");
    reveal_strlit("strategyshift");
    reveal_strlit("wonder");
    reveal_strlit("question");
    reveal_strlit("idea");
    reveal_strlit("experiment");
    reveal_strlit("actiontaken");
    reveal_strlit("taskcomplete");
    reveal_strlit("checkpoint");
    reveal_strlit("statesnapshot");
    reveal_strlit("handoff");
    reveal_strlit("summary");
    reveal_strlit("surprise");
    assert(label_key("Surprise"@) =~= "surprise"@);
    assert("surprise"@.len() != "preferenceupdate"@.len());
    assert("surprise"@.len() != "usertrait"@.len());
    assert("surprise"@.len() != "relationshipupdate"@.len());
    assert("surprise"@.len() != "finding"@.len());
    assert("surprise"@.len() != "insight"@.len());
    assert("surprise"@.len() != "factlearned"@.len());
    assert("surprise"@.len() != "patterndetected"@.len());
    assert("surprise"@.len() != "hypothesis"@.len());
    assert("surprise"@.len() != "mistake"@.len());
    assert("surprise"@.len() != "correction"@.len());
    assert("surprise"@.len() != "lessonlearned"@.len());
    assert("surprise"@.len() != "assumptioninvalidated"@.len());
    assert("surprise"@.len() != "constraint"@.len());
    assert("surprise"@.len() != "plan"@.len());
    assert("surprise"@.len() != "subgoal"@.len());
    assert("surprise"@[0] != "decision"@[0]);
    assert("surprise"@.len() != "strategyshift"@.len());
    assert("surprise"@.len() != "wonder"@.len());
    assert("surprise"@[0] != "question"@[0]);
    assert("surprise"@.len() != "idea"@.len());
    assert("surprise"@.len() != "experiment"@.len());
    assert("surprise"@.len() != "actiontaken"@.len());
    assert("surprise"@.len() != "taskcomplete"@.len());
    assert("surprise"@.len() != "checkpoint"@.len());
    assert("surprise"@.len() != "statesnapshot"@.len());
    assert("surprise"@.len() != "handoff"@.len());
    assert("surprise"@.len() != "summary"@.len());
}

proof fn lemma_key_roundtrip_reframe()
    ensures
        label_key(ThoughtType::Reframe.name()) == ThoughtType::Reframe.key(),
        ThoughtType::Reframe.name().len() == ThoughtType::Reframe.key().len(),
        thought_type_from_key(ThoughtType::Reframe.key()) == Some(ThoughtType::Reframe),
{
    reveal_with_fuel(label_key, 24);
    reveal_strlit("Reframe");
    reveal_strlit("preferenceupdate");
    reveal_strlit("usertrait");
    reveal_strlit("relationshipupdate");
    reveal_strlit("finding");
    reveal_strlit("insight");
    reveal_strlit("factlearned");
    reveal_strlit("patterndetected");
    reveal_strlit("hypothesis");
    reveal_strlit("mistake");
    reveal_strlit("correction");
    reveal_strlit("lessonlearned");
    reveal_strlit("assumptioninvalidated");
    reveal_strlit("constraint");
    reveal_strlit("plan");
    reveal_strlit("subgoal");
    reveal_strlit("decision");
    reveal_strlit("strategyshift");
    reveal_strlit("wonder");
    reveal_strlit("question");
    reveal_strlit("idea");
    reveal_strlit("experiment");
    reveal_strlit("actiontaken");
    reveal_strlit("taskcomplete");
    reveal_strlit("checkpoint");
    reveal_strlit("statesnapshot");
    reveal_strlit("handoff");
    reveal_strlit("summary");
    reveal_strlit("surprise");
    reveal_strlit("reframe");
    assert(label_key("Reframe"@) =~= "reframe"@);
    assert("reframe"@.len() != "preferenceupdate"@.len());
    assert("reframe"@.len() != "usertrait"@.len());
    assert("reframe"@.len() != "relationshipupdate"@.len());
    assert("reframe"@[0] != "finding"@[0]);
    assert("reframe"@[0] != "insight"@[0]);
    assert("reframe"@.len() != "factlearned"@.len());
    assert("reframe"@.len() != "patterndetected"@.len());
    assert("reframe"@.len() != "hypothesis"@.len());
    assert("reframe"@[0] != "mistake"@[0]);
    assert("reframe"@.len() != "correction"@.len());
    assert("reframe"@.len() != "lessonlearned"@.len());
    assert("reframe"@.len() != "assumptioninvalidated"@.len());
    assert("reframe"@.len() != "constraint"@.len());
    assert("reframe"@.len() != "plan"@.len());
    assert("reframe"@[0] != "subgoal"@[0]);
    assert("reframe"@.len() != "decision"@.len());
    assert("reframe"@.len() != "strategyshift"@.len());
    assert("reframe"@.len() != "wonder"@.len());
    assert("reframe"@.len() != "question"@.len());
    assert("reframe"@.len() != "idea"@.len());
    assert("reframe"@.len() != "experiment"@.len());
    assert("reframe"@.len() != "actiontaken"@.len());
    assert("reframe"@.len() != "taskcomplete"@.len());
    assert("reframe"@.len() != "checkpoint"@.len());
    assert("reframe"@.len() != "statesnapshot"@.len());
    assert("reframe"@[0] != "handoff"@[0]);
    assert("reframe"@[0] != "summary"@[0]);
    assert("reframe"@.len() != "surprise"@.len());
}

proof fn lemma_key_roundtrip_goal()
    ensures
        label_key(ThoughtType::Goal.name()) == ThoughtType::Goal.key(),
        ThoughtType::Goal.name().len() == ThoughtType::Goal.key().len(),
        thought_type_from_key(ThoughtType::Goal.key()) == Some(ThoughtType::Goal),
{
    reveal_with_fuel(label_key, 24);
    reveal_strlit("Goal");
    reveal_strlit("preferenceupdate");
    reveal_strlit("usertrait");
    reveal_strlit("relationshipupdate");
    reveal_strlit("finding");
    reveal_strlit("insight");
    reveal_strlit("factlearned");
    reveal_strlit("patterndetected");
    reveal_strlit("hypothesis");
    reveal_strlit("mistake");
    reveal_strlit("correction");
    reveal_strlit("lessonlearned");
    reveal_strlit("assumptioninvalidated");
    reveal_strlit("constraint");
    reveal_strlit("plan");
    reveal_strlit("subgoal");
    reveal_strlit("decision");
    reveal_strlit("strategyshift");
    reveal_strlit("wonder");
    reveal_strlit("question");
    reveal_strlit("idea");
    reveal_strlit("experiment");
    reveal_strlit("actiontaken");
    reveal_strlit("taskcomplete");
    reveal_strlit("checkpoint");
    reveal_strlit("statesnapshot");
    reveal_strlit("handoff");
    reveal_strlit("summary");
    reveal_strlit("surprise");
    reveal_strlit("reframe");
    reveal_strlit("goal");
    assert(label_key("Goal"@) =~= "goal"@);
    assert("goal"@.len() != "preferenceupdate"@.len());
    assert("goal"@.len() != "usertrait"@.len());
    assert("goal"@.len() != "relationshipupdate"@.len());
    assert("goal"@.len() != "finding"@.len());
    assert("goal"@.len() != "insight"@.len());
    assert("goal"@.len() != "factlearned"@.len());
    assert("goal"@.len() != "patterndetected"@.len());
    assert("goal"@.len() != "hypothesis"@.len());
    assert("goal"@.len() != "mistake"@.len());
    assert("goal"@.len() != "correction"@.len());
    assert("goal"@.len() != "lessonlearned"@.len());
    assert("goal"@.len() != "assumptioninvalidated"@.len());
    assert("goal"@.len() != "constraint"@.len());
    assert("goal"@[0] != "plan"@[0]);
    assert("goal"@.len() != "subgoal"@.len());
    assert("goal"@.len() != "decision"@.len());
    assert("goal"@.len() != "strategyshift"@.len());
    assert("goal"@.len() != "wonder"@.len());
    assert("goal"@.len() != "question"@.len());
    assert("goal"@[0] != "idea"@[0]);
    assert("goal"@.len() != "experiment"@.len());
    assert("goal"@.len() != "actiontaken"@.len());
    assert("goal"@.len() != "taskcomplete"@.len());
    assert("goal"@.len() != "checkpoint"@.len());
    assert("goal"@.len() != "statesnapshot"@.len());
    assert("goal"@.len() != "handoff"@.len());
    assert("goal"@.len() != "summary"@.len());
    assert("goal"@.len() != "surprise"@.len());
    assert("goal"@.len() != "reframe"@.len());
}

proof fn lemma_key_roundtrip_llmextracted()
    ensures
        label_key(ThoughtType::LLMExtracted.name()) == ThoughtType::LLMExtracted.key(),
        ThoughtType::LLMExtracted.name().len() == ThoughtType::LLMExtracted.key().len(),
        thought_type_from_key(ThoughtType::LLMExtracted.key()) == Some(ThoughtType::LLMExtracted),
{
    reveal_with_fuel(label_key, 24);
    reveal_strlit("LLMExtracted");
    reveal_strlit("preferenceupdate");
    reveal_strlit("usertrait");
    reveal_strlit("relationshipupdate");
    reveal_strlit("finding");
    reveal_strlit("insight");
    reveal_strlit("factlearned");
    reveal_strlit("patterndetected");
    reveal_strlit("hypothesis");
    reveal_strlit("mistake");
    reveal_strlit("correction");
    reveal_strlit("lessonlearned");
    reveal_strlit("assumptioninvalidated");
    reveal_strlit("constraint");
    reveal_strlit("plan");
    reveal_strlit("subgoal");
    reveal_strlit("decision");
    reveal_strlit("strategyshift");
    reveal_strlit("wonder");
    reveal_strlit("question");
    reveal_strlit("idea");
    reveal_strlit("experiment");
    reveal_strlit("actiontaken");
    reveal_strlit("taskcomplete");
    reveal_strlit("checkpoint");
    reveal_strlit("statesnapshot");
    reveal_strlit("handoff");
    reveal_strlit("summary");
    reveal_strlit("surprise");
    reveal_strlit("reframe");
    reveal_strlit("goal");
    reveal_strlit("llmextracted");
    assert(label_key("LLMExtracted"@) =~= "llmextracted"@);
    assert("llmextracted"@.len() != "preferenceupdate"@.len());
    assert("llmextracted"@.len() != "usertrait"@.len());
    assert("llmextracted"@.len() != "relationshipupdate"@.len());
    assert("llmextracted"@.len() != "finding"@.len());
    assert("llmextracted"@.len() != "insight"@.len());
    assert("llmextracted"@.len() != "factlearned"@.len());
    assert("llmextracted"@.len() != "patterndetected"@.len());
    assert("llmextracted"@.len() != "hypothesis"@.len());
    assert("llmextracted"@.len() != "mistake"@.len());
    assert("llmextracted"@.len() != "correction"@.len());
    assert("llmextracted"@.len() != "lessonlearned"@.len());
    assert("llmextracted"@.len() != "assumptioninvalidated"@.len());
    assert("llmextracted"@.len() != "constraint"@.len());
    assert("llmextracted"@.len() != "plan"@.len());
    assert("llmextracted"@.len() != "subgoal"@.len());
    assert("llmextracted"@.len() != "decision"@.len());
    assert("llmextracted"@.len() != "strategyshift"@.len());
    assert("llmextracted"@.len() != "wonder"@.len());
    assert("llmextracted"@.len() != "question"@.len());
    assert("llmextracted"@.len() != "idea"@.len());
    assert("llmextracted"@.len() != "experiment"@.len());
    assert("llmextracted"@.len() != "actiontaken"@.len());
    assert("llmextracted"@[0] != "taskcomplete"@[0]);
    assert("llmextracted"@.len() != "checkpoint"@.len());
    assert("llmextracted"@.len() != "statesnapshot"@.len());
    assert("llmextracted"@.len() != "handoff"@.len());
    assert("llmextracted"@.len() != "summary"@.len());
    assert("llmextracted"@.len() != "surprise"@.len());
    assert("llmextracted"@.len() != "reframe"@.len());
    assert("llmextracted"@.len() != "goal"@.len());
}

/// Parsing the canonical name of a thought type gives that type back.
pub proof fn lemma_thought_type_name_roundtrip(t: ThoughtType)
    ensures
        label_key(t.name()) == t.key(),
        thought_type_from_key(t.key()) == Some(t),
        forall|i: int| 0 <= i < t.name().len() ==> is_ascii_alnum(#[trigger] t.name()[i]),
{
    lemma_label_key_len(t.name());
    match t {
        ThoughtType::PreferenceUpdate => lemma_key_roundtrip_preferenceupdate(),
        ThoughtType::UserTrait => lemma_key_roundtrip_usertrait(),
        ThoughtType::RelationshipUpdate => lemma_key_roundtrip_relationshipupdate(),
        ThoughtType::Finding => lemma_key_roundtrip_finding(),
        ThoughtType::Insight => lemma_key_roundtrip_insight(),
        ThoughtType::FactLearned => lemma_key_roundtrip_factlearned(),
        ThoughtType::PatternDetected => lemma_key_roundtrip_patterndetected(),
        ThoughtType::Hypothesis => lemma_key_roundtrip_hypothesis(),
        ThoughtType::Mistake => lemma_key_roundtrip_mistake(),
        ThoughtType::Correction => lemma_key_roundtrip_correction(),
        ThoughtType::LessonLearned => lemma_key_roundtrip_lessonlearned(),
        ThoughtType::AssumptionInvalidated => lemma_key_roundtrip_assumptioninvalidated(),
        ThoughtType::Constraint => lemma_key_roundtrip_constraint(),
        ThoughtType::Plan => lemma_key_roundtrip_plan(),
        ThoughtType::Subgoal => lemma_key_roundtrip_subgoal(),
        ThoughtType::Decision => lemma_key_roundtrip_decision(),
        ThoughtType::StrategyShift => lemma_key_roundtrip_strategyshift(),
        ThoughtType::Wonder => lemma_key_roundtrip_wonder(),
        ThoughtType::Question => lemma_key_roundtrip_question(),
        ThoughtType::Idea => lemma_key_roundtrip_idea(),
        ThoughtType::Experiment => lemma_key_roundtrip_experiment(),
        ThoughtType::ActionTaken => lemma_key_roundtrip_actiontaken(),
        ThoughtType::TaskComplete => lemma_key_roundtrip_taskcomplete(),
        ThoughtType::Checkpoint => lemma_key_roundtrip_checkpoint(),
        ThoughtType::StateSnapshot => lemma_key_roundtrip_statesnapshot(),
        ThoughtType::Handoff => lemma_key_roundtrip_handoff(),
        ThoughtType::Summary => lemma_key_roundtrip_summary(),
        ThoughtType::Surprise => lemma_key_roundtrip_surprise(),
        ThoughtType::Reframe => lemma_key_roundtrip_reframe(),
        ThoughtType::Goal => lemma_key_roundtrip_goal(),
        ThoughtType::LLMExtracted => lemma_key_roundtrip_llmextracted(),
    }
}

/// The names of thought types, separated by `, `.
pub open spec fn type_name_list(ts: Seq<ThoughtType>) -> Seq<char>
    decreases ts.len(),
{
    if ts.len() == 0 {
        Seq::empty()
    } else if ts.len() == 1 {
        ts[0].name()
    } else {
        type_name_list(ts.drop_last()) + ", "@ + ts.last().name()
    }
}

/// The message for a label that names no thought type.
pub open spec fn unknown_type_message(input: Seq<char>) -> Seq<char> {
    "Unknown ThoughtType '"@ + input + "'. Valid types: "@ + type_name_list(ThoughtType::spec_all())
}

/// A label that names no thought type.
#[derive(Debug, Clone, PartialEq, Eq)]
pub struct ParseThoughtTypeError {
    pub(crate) input: String,
}

impl ParseThoughtTypeError {
    pub closed spec fn spec_input(&self) -> Seq<char> {
        self.input@
    }

    /// The input string that failed to parse.
    pub fn input(&self) -> (s: &str)
        ensures
            s@ == self.spec_input(),
    {
        self.input.as_str()
    }

    /// Human-readable message listing every valid type, in declaration order.
    pub fn message(&self) -> (s: String)
        ensures
            s@ == unknown_type_message(self.spec_input()),
    {
        let head = concat_str("Unknown ThoughtType '", self.input.as_str());
        let mut s = concat_str(head.as_str(), "'. Valid types: ");
        let ghost prefix = s@;
        let all = ThoughtType::all();
        let mut i: usize = 0;
        while i < all.len()
            invariant
                all@ == ThoughtType::spec_all(),
                i <= all@.len(),
                s@ == prefix + type_name_list(all@.take(i as int)),
            decreases all@.len() - i,
        {
            if i > 0 {
                s = concat_str(s.as_str(), ", ");
            }
            s = concat_str(s.as_str(), all[i].as_str());
            proof {
                assert(all@.take(i + 1).drop_last() =~= all@.take(i as int));
                if i == 0 {
                    assert(all@.take(0) =~= Seq::<ThoughtType>::empty());
                }
            }
            i = i + 1;
        }
        assert(all@.take(all@.len() as int) =~= all@);
        s
    }
}

impl ThoughtType {
    /// Parses a thought type from a label such as `FactLearned`, `fact-learned`
    /// or `fact learned`: case and every non-alphanumeric character are ignored.
    pub fn parse(input: &str) -> (r: Result<ThoughtType, ParseThoughtTypeError>)
        ensures
            match thought_type_from_key(label_key(input@)) {
                Some(t) => r == Ok::<ThoughtType, ParseThoughtTypeError>(t),
                None => r matches Err(e) && e.spec_input() == input@,
            },
    {
        let key = label_key_of(input);
        match thought_type_for_key(&key) {
            Some(t) => Ok(t),
            None => Err(ParseThoughtTypeError { input: String::from_str(input) }),
        }
    }
}

impl std::str::FromStr for ThoughtType {
    type Err = ParseThoughtTypeError;

    fn from_str(input: &str) -> (r: Result<Self, Self::Err>)
        ensures
            match thought_type_from_key(label_key(input@)) {
                Some(t) => r == Ok::<ThoughtType, ParseThoughtTypeError>(t),
                None => r matches Err(e) && e.spec_input() == input@,
            },
    {
        ThoughtType::parse(input)
    }
}

/// Operational role of a thought inside the system.
#[derive(Debug, Clone, Copy, PartialEq, Eq, Hash, Structural)]
pub enum ThoughtRole {
    /// Durable long-term memory.
    Memory,
    /// Shorter-lived or more speculative working memory.
    WorkingMemory,
    /// A synthesized summary role.
    Summary,
    /// A role emitted during context compression.
    Compression,
    /// A role intended primarily for resumption checkpoints.
    Checkpoint,
    /// A role intended for handoff to another actor or process.
    Handoff,
    /// A role intended mainly for traceability or audit logs.
    Audit,
    /// A role emitted during deliberate reflection.
    Retrospective,
    /// Written by an unprompted offline consolidation pass; lower trust until promoted.
    Dream,
}

impl ThoughtRole {
    /// The variant name, as `{:?}` prints it.
    pub open spec fn name(self) -> Seq<char> {
        match self {
            ThoughtRole::Memory => "Memory"@,
            ThoughtRole::WorkingMemory => "WorkingMemory"@,
            ThoughtRole::Summary => "Summary"@,
            ThoughtRole::Compression => "Compression"@,
            ThoughtRole::Checkpoint => "Checkpoint"@,
            ThoughtRole::Handoff => "Handoff"@,
            ThoughtRole::Audit => "Audit"@,
            ThoughtRole::Retrospective => "Retrospective"@,
            ThoughtRole::Dream => "Dream"@,
        }
    }

    /// The variant name, as `{:?}` prints it.
    pub fn debug_name(self) -> (s: &'static str)
        ensures
            s@ == self.name(),
    {
        match self {
            ThoughtRole::Memory => "Memory",
            ThoughtRole::WorkingMemory => "WorkingMemory",
            ThoughtRole::Summary => "Summary",
            ThoughtRole::Compression => "Compression",
            ThoughtRole::Checkpoint => "Checkpoint",
            ThoughtRole::Handoff => "Handoff",
            ThoughtRole::Audit => "Audit",
            ThoughtRole::Retrospective => "Retrospective",
            ThoughtRole::Dream => "Dream",
        }
    }

    /// The default role of a new thought.
    pub fn default_role() -> (r: ThoughtRole)
        ensures
            r == ThoughtRole::Memory,
    {
        ThoughtRole::Memory
    }
}

impl Default for ThoughtRole {
    fn default() -> (r: ThoughtRole)
        ensures
            r == ThoughtRole::Memory,
    {
        ThoughtRole::Memory
    }
}

/// The role whose normalized name is `k`, if any.
pub open spec fn thought_role_from_key(k: Seq<char>) -> Option<ThoughtRole> {
    if k == "memory"@ {
        Some(ThoughtRole::Memory)
    } else if k == "workingmemory"@ {
        Some(ThoughtRole::WorkingMemory)
    } else if k == "summary"@ {
        Some(ThoughtRole::Summary)
    } else if k == "compression"@ {
        Some(ThoughtRole::Compression)
    } else if k == "checkpoint"@ {
        Some(ThoughtRole::Checkpoint)
    } else if k == "handoff"@ {
        Some(ThoughtRole::Handoff)
    } else if k == "audit"@ {
        Some(ThoughtRole::Audit)
    } else if k == "retrospective"@ {
        Some(ThoughtRole::Retrospective)
    } else if k == "dream"@ {
        Some(ThoughtRole::Dream)
    } else {
        None
    }
}

/// Parses a role from its debug name, ignoring case and every character that
/// is not an ASCII letter or digit.
pub fn parse_thought_role_from_debug(input: &str) -> (r: Option<ThoughtRole>)
    ensures
        r == thought_role_from_key(label_key(input@)),
{
    let k = label_key_of(input);
    if chars_eq_str(&k, "memory") {
        Some(ThoughtRole::Memory)
    } else if chars_eq_str(&k, "workingmemory") {
        Some(ThoughtRole::WorkingMemory)
    } else if chars_eq_str(&k, "summary") {
        Some(ThoughtRole::Summary)
    } else if chars_eq_str(&k, "compression") {
        Some(ThoughtRole::Compression)
    } else if chars_eq_str(&k, "checkpoint") {
        Some(ThoughtRole::Checkpoint)
    } else if chars_eq_str(&k, "handoff") {
        Some(ThoughtRole::Handoff)
    } else if chars_eq_str(&k, "audit") {
        Some(ThoughtRole::Audit)
    } else if chars_eq_str(&k, "retrospective") {
        Some(ThoughtRole::Retrospective)
    } else if chars_eq_str(&k, "dream") {
        Some(ThoughtRole::Dream)
    } else {
        None
    }
}

/// Distinct roles have distinct names.
pub proof fn lemma_role_names_distinct(a: ThoughtRole, b: ThoughtRole)
    ensures
        a.name() == b.name() ==> a == b,
{
    reveal_strlit("Memory");
    reveal_strlit("WorkingMemory");
    reveal_strlit("Summary");
    reveal_strlit("Compression");
    reveal_strlit("Checkpoint");
    reveal_strlit("Handoff");
    reveal_strlit("Audit");
    reveal_strlit("Retrospective");
    reveal_strlit("Dream");
    if a != b {
        assert(a.name().len() != b.name().len() || a.name()[0] != b.name()[0]);
    }
}

/// The normal form of a label of ASCII letters and digits is the label
/// lower-cased.
proof fn lemma_label_key_of_alnum(s: Seq<char>)
    requires
        forall|i: int| 0 <= i < s.len() ==> is_ascii_alnum(#[trigger] s[i]),
    ensures
        label_key(s) == ascii_lower(s),
    decreases s.len(),
{
    if s.len() > 0 {
        let rest = s.drop_first();
        assert forall|i: int| 0 <= i < rest.len() implies is_ascii_alnum(#[trigger] rest[i]) by {
            assert(rest[i] == s[i + 1]);
        }
        lemma_label_key_of_alnum(rest);
        assert(is_ascii_alnum(s[0]));
        assert(ascii_lower(s) =~= seq![ascii_lower_char(s[0])] + ascii_lower(rest));
    } else {
        assert(ascii_lower(s) =~= Seq::<char>::empty());
    }
}

/// A label parses to a thought type exactly when its normal form is that
/// type's name lower-cased: `thought_type_from_key` finds `t` for the key
/// `k` if and only if `k` is the lower-cased name of `t`.
pub proof fn lemma_thought_type_parse_law(k: Seq<char>, t: ThoughtType)
    ensures
        thought_type_from_key(k) == Some(t) <==> k == ascii_lower(t.name()),
{
    lemma_thought_type_name_roundtrip(t);
    lemma_label_key_of_alnum(t.name());
    assert(t.key() == ascii_lower(t.name()));
    if thought_type_from_key(k) == Some(t) {
        assert(k == t.key());
    }
}

/// Distinct thought types have distinct names.
pub proof fn lemma_type_names_distinct(a: ThoughtType, b: ThoughtType)
    ensures
        a.name() == b.name() ==> a == b,
{
    lemma_thought_type_name_roundtrip(a);
    lemma_thought_type_name_roundtrip(b);
}

/// Visibility scope of a thought, stored on it as a `scope:` tag.
#[derive(Debug, Clone, Copy, PartialEq, Eq, Hash, Structural)]
pub enum MemoryScope {
    /// Visible to all agents sharing the same user identity.
    User,
    /// Visible only within the session that created it.
    Session,
    /// Visible only to the agent that created it.
    Agent,
}

impl MemoryScope {
    pub open spec fn tag(self) -> Seq<char> {
        match self {
            MemoryScope::User => "scope:user"@,
            MemoryScope::Session => "scope:session"@,
            MemoryScope::Agent => "scope:agent"@,
        }
    }

    /// The tag string used to mark this scope on a thought.
    pub fn as_tag(&self) -> (s: &'static str)
        ensures
            s@ == self.tag(),
    {
        match self {
            MemoryScope::User => "scope:user",
            MemoryScope::Session => "scope:session",
            MemoryScope::Agent => "scope:agent",
        }
    }

    /// Parses a scope tag back to a scope; the match is exact.
    pub fn from_tag(tag: &str) -> (r: Option<MemoryScope>)
        ensures
            r matches Some(s) ==> s.tag() == tag@,
            r is None ==> (forall|s: MemoryScope| s.tag() != tag@),
    {
        let v = chars_of(tag);
        if chars_eq_str(&v, "scope:user") {
            Some(MemoryScope::User)
        } else if chars_eq_str(&v, "scope:session") {
            Some(MemoryScope::Session)
        } else if chars_eq_str(&v, "scope:agent") {
            Some(MemoryScope::Agent)
        } else {
            proof {
                assert forall|s: MemoryScope| s.tag() != tag@ by {
                    match s {
                        MemoryScope::User => {},
                        MemoryScope::Session => {},
                        MemoryScope::Agent => {},
                    }
                }
            }
            None
        }
    }
}

impl Default for MemoryScope {
    fn default() -> (s: MemoryScope)
        ensures
            s == MemoryScope::User,
    {
        MemoryScope::User
    }
}

/// The three scope tags are pairwise distinct, so a tag names one scope.
pub proof fn lemma_scope_tags_distinct(a: MemoryScope, b: MemoryScope)
    ensures
        a.tag() == b.tag() ==> a == b,
{
    reveal_strlit("scope:user");
    reveal_strlit("scope:session");
    reveal_strlit("scope:agent");
    if a != b {
        assert(a.tag().len() != b.tag().len() || a.tag()[6] != b.tag()[6]);
    }
}

/// Why a thought points to another thought.
#[derive(Debug, Clone, Copy, PartialEq, Eq, Hash, Structural)]
pub enum ThoughtRelationKind {
    /// A general back-reference.
    References,
    /// The source thought summarizes the target thought.
    Summarizes,
    /// The source thought corrects the target thought.
    Corrects,
    /// The source thought invalidates the target thought.
    Invalidates,
    /// The source thought was caused by the target thought.
    CausedBy,
    /// The source thought supports the target thought.
    Supports,
    /// The source thought contradicts the target thought.
    Contradicts,
    /// The source thought was derived from the target thought.
    DerivedFrom,
    /// The source thought continues the work of the target thought.
    ContinuesFrom,
    /// The source thought starts a branch chain diverging from the target.
    BranchesFrom,
    /// A generic semantic relation.
    RelatedTo,
    /// The source thought supersedes the target thought.
    Supersedes,
}

/// The relation kinds that hide their target from default retrieval.
pub open spec fn invalidating(kind: ThoughtRelationKind) -> bool {
    kind == ThoughtRelationKind::Supersedes || kind == ThoughtRelationKind::Corrects || kind
        == ThoughtRelationKind::Invalidates
}

/// Whether `kind` marks its relation target as superseded for retrieval.
pub fn is_invalidating_relation_kind(kind: ThoughtRelationKind) -> (r: bool)
    ensures
        r == invalidating(kind),
        r <==> (kind is Supersedes || kind is Corrects || kind is Invalidates),
{
    match kind {
        ThoughtRelationKind::Supersedes => true,
        ThoughtRelationKind::Corrects => true,
        ThoughtRelationKind::Invalidates => true,
        _ => false,
    }
}

/// Retrieval backend that produced a ranked result.
#[derive(Debug, Clone, Copy, PartialEq, Eq, Hash, Structural)]
pub enum RankedSearchBackend {
    /// Lexical scoring only.
    Lexical,
    /// Lexical plus vector scoring.
    Hybrid,
    /// Lexical scoring with graph expansion.
    LexicalGraph,
    /// Hybrid scoring with graph expansion.
    HybridGraph,
    /// Importance and recency only.
    Heuristic,
}

impl RankedSearchBackend {
    pub open spec fn name(self) -> Seq<char> {
        match self {
            RankedSearchBackend::Lexical => "lexical"@,
            RankedSearchBackend::Hybrid => "hybrid"@,
            RankedSearchBackend::LexicalGraph => "lexical_graph"@,
            RankedSearchBackend::HybridGraph => "hybrid_graph"@,
            RankedSearchBackend::Heuristic => "heuristic"@,
        }
    }

    /// Stable lowercase name of this backend.
    pub fn as_str(self) -> (s: &'static str)
        ensures
            s@ == self.name(),
    {
        match self {
            RankedSearchBackend::Lexical => "lexical",
            RankedSearchBackend::Hybrid => "hybrid",
            RankedSearchBackend::LexicalGraph => "lexical_graph",
            RankedSearchBackend::HybridGraph => "hybrid_graph",
            RankedSearchBackend::Heuristic => "heuristic",
        }
    }
}

/// Which relation directions graph expansion follows.
#[derive(Debug, Clone, Copy, PartialEq, Eq, Hash, Structural)]
pub enum GraphExpansionMode {
    /// Follow relations from source to target only.
    Outgoing,
    /// Follow relations from target to source only.
    Incoming,
    /// Follow relations both ways.
    Bidirectional,
}

/// Graph-expansion settings for ranked retrieval.
#[derive(Debug, Clone, Copy, PartialEq, Eq, Hash, Structural)]
pub struct RankedSearchGraph {
    /// Maximum number of hops from a seed.
    pub max_depth: usize,
    /// Maximum number of visited thoughts; at least one.
    pub max_visited: usize,
    /// Whether the seeds themselves are kept among the results.
    pub include_seeds: bool,
    /// Directions followed during expansion.
    pub mode: GraphExpansionMode,
}

impl RankedSearchGraph {
    /// Defaults: two hops, 128 visited thoughts, seeds kept, both directions.
    pub fn new() -> (g: RankedSearchGraph)
        ensures
            g.max_depth == 2,
            g.max_visited == 128,
            g.include_seeds,
            g.mode == GraphExpansionMode::Bidirectional,
    {
        RankedSearchGraph {
            max_depth: 2,
            max_visited: 128,
            include_seeds: true,
            mode: GraphExpansionMode::Bidirectional,
        }
    }

    /// Sets the maximum hop count.
    pub fn with_max_depth(self, max_depth: usize) -> (g: RankedSearchGraph)
        ensures
            g == (RankedSearchGraph { max_depth, ..self }),
    {
        RankedSearchGraph { max_depth, ..self }
    }

    /// Sets the visit budget; zero is raised to one.
    pub fn with_max_visited(self, max_visited: usize) -> (g: RankedSearchGraph)
        ensures
            g == (RankedSearchGraph {
                max_visited: if max_visited == 0 { 1 } else { max_visited },
                ..self
            }),
    {
        let v = if max_visited == 0 { 1 } else { max_visited };
        RankedSearchGraph { max_visited: v, ..self }
    }

    /// Sets whether seeds are kept.
    pub fn with_include_seeds(self, include_seeds: bool) -> (g: RankedSearchGraph)
        ensures
            g == (RankedSearchGraph { include_seeds, ..self }),
    {
        RankedSearchGraph { include_seeds, ..self }
    }

    /// Sets the expansion directions.
    pub fn with_mode(self, mode: GraphExpansionMode) -> (g: RankedSearchGraph)
        ensures
            g == (RankedSearchGraph { mode, ..self }),
    {
        RankedSearchGraph { mode, ..self }
    }
}

impl Default for RankedSearchGraph {
    fn default() -> (g: RankedSearchGraph)
        ensures
            g.max_depth == 2,
            g.max_visited == 128,
            g.include_seeds,
            g.mode == GraphExpansionMode::Bidirectional,
    {
        RankedSearchGraph::new()
    }
}

/// Direction of a chunked traversal through the chain.
#[derive(Debug, Clone, Copy, PartialEq, Eq, Hash, Structural)]
pub enum ThoughtTraversalDirection {
    /// Towards the head.
    Forward,
    /// Towards the genesis.
    Backward,
}

/// Unit of the `start` and `delta` fields of a time window.
#[derive(Debug, Clone, Copy, PartialEq, Eq, Hash, Structural)]
pub enum TimeWindowUnit {
    /// Seconds since the Unix epoch.
    Seconds,
    /// Milliseconds since the Unix epoch.
    Milliseconds,
}

/// Built-in embedding providers that a chain can manage.
#[derive(Debug, Clone, Copy, PartialEq, Eq, Hash, Structural)]
pub enum ManagedVectorProviderKind {
    /// The built-in local text embedding, version 1.
    LocalTextV1,
}

impl ManagedVectorProviderKind {
    pub open spec fn spec_key(self) -> Seq<char> {
        "local-text-v1"@
    }

    /// Stable configuration key of the provider.
    pub fn key(self) -> (s: &'static str)
        ensures
            s@ == self.spec_key(),
    {
        match self {
            ManagedVectorProviderKind::LocalTextV1 => "local-text-v1",
        }
    }
}

/// Storage schema versions.
pub const MENTISDB_SCHEMA_V0: u32 = 0;
/// First registry-backed schema version.
pub const MENTISDB_SCHEMA_V1: u32 = 1;
/// Adds reframes, supersession and cross-chain relations.
pub const MENTISDB_SCHEMA_V2: u32 = 2;
/// Adds temporal validity of relations.
pub const MENTISDB_SCHEMA_V3: u32 = 3;
/// The latest supported schema version.
pub const MENTISDB_CURRENT_VERSION: u32 = 3;

/// The schema version written by this library.
pub fn current_schema_version() -> (v: u32)
    ensures
        v == MENTISDB_CURRENT_VERSION,
{
    MENTISDB_CURRENT_VERSION
}

/// Parsing the name of a storage kind gives that kind back.
pub proof fn lemma_storage_kind_roundtrip(k: StorageAdapterKind)
    ensures
        lowered_trim(k.name()) == k.name(),
{
    reveal_strlit("binary");
    reveal_strlit("jsonl");
    lemma_plain_name_is_own_form(k.name());
}

/// Parsing the name of an agent status gives that status back.
pub proof fn lemma_agent_status_roundtrip(s: AgentStatus)
    ensures
        lowered_trim(s.name()) == s.name(),
{
    reveal_strlit("active");
    reveal_strlit("revoked");
    lemma_plain_name_is_own_form(s.name());
}

/// Parsing the name of a key algorithm gives that algorithm back.
pub proof fn lemma_key_algorithm_roundtrip(a: PublicKeyAlgorithm)
    ensures
        lowered_trim(a.name()) == a.name(),
{
    reveal_strlit("ed25519");
    lemma_plain_name_is_own_form(a.name());
}

/// A name made only of lower-case ASCII letters and digits is its own
/// trimmed, lower-cased form.
proof fn lemma_plain_name_is_own_form(s: Seq<char>)
    requires
        forall|i: int| 0 <= i < s.len() ==> (#[trigger] crate::text::is_ascii_lower(s[i])
            || crate::text::is_ascii_digit(s[i])),
    ensures
        lowered_trim(s) == s,
{
    assert forall|i: int| 0 <= i < s.len() implies is_ascii_alnum(#[trigger] s[i]) by {}
    crate::text::lemma_trim_of_alnum(s);
    assert forall|i: int| 0 <= i < s.len() implies ascii_lower(s)[i] == s[i] by {
        assert(crate::text::is_ascii_lower(s[i]) || crate::text::is_ascii_digit(s[i]));
    }
    assert(ascii_lower(s) =~= s);
}



proof fn lemma_role_key_memory()
    ensures
        thought_role_from_key(label_key(ThoughtRole::Memory.name())) == Some(ThoughtRole::Memory),
        label_key(ThoughtRole::Memory.name()).len() == ThoughtRole::Memory.name().len(),
        ThoughtRole::Memory.name().len() > 0,
{
    reveal_with_fuel(label_key, 16);
    reveal_strlit("Memory");
    reveal_strlit("memory");
    assert(label_key("Memory"@) =~= "memory"@);
}

proof fn lemma_role_key_workingmemory()
    ensures
        thought_role_from_key(label_key(ThoughtRole::WorkingMemory.name())) == Some(ThoughtRole::WorkingMemory),
        label_key(ThoughtRole::WorkingMemory.name()).len() == ThoughtRole::WorkingMemory.name().len(),
        ThoughtRole::WorkingMemory.name().len() > 0,
{
    reveal_with_fuel(label_key, 16);
    reveal_strlit("WorkingMemory");
    reveal_strlit("memory");
    reveal_strlit("workingmemory");
    assert(label_key("WorkingMemory"@) =~= "workingmemory"@);
    assert("workingmemory"@.len() != "memory"@.len());
}

proof fn lemma_role_key_summary()
    ensures
        thought_role_from_key(label_key(ThoughtRole::Summary.name())) == Some(ThoughtRole::Summary),
        label_key(ThoughtRole::Summary.name()).len() == ThoughtRole::Summary.name().len(),
        ThoughtRole::Summary.name().len() > 0,
{
    reveal_with_fuel(label_key, 16);
    reveal_strlit("Summary");
    reveal_strlit("memory");
    reveal_strlit("workingmemory");
    reveal_strlit("summary");
    assert(label_key("Summary"@) =~= "summary"@);
    assert("summary"@.len() != "memory"@.len());
    assert("summary"@.len() != "workingmemory"@.len());
}

proof fn lemma_role_key_compression()
    ensures
        thought_role_from_key(label_key(ThoughtRole::Compression.name())) == Some(ThoughtRole::Compression),
        label_key(ThoughtRole::Compression.name()).len() == ThoughtRole::Compression.name().len(),
        ThoughtRole::Compression.name().len() > 0,
{
    reveal_with_fuel(label_key, 16);
    reveal_strlit("Compression");
    reveal_strlit("memory");
    reveal_strlit("workingmemory");
    reveal_strlit("summary");
    reveal_strlit("compression");
    assert(label_key("Compression"@) =~= "compression"@);
    assert("compression"@.len() != "memory"@.len());
    assert("compression"@.len() != "workingmemory"@.len());
    assert("compression"@.len() != "summary"@.len());
}

proof fn lemma_role_key_checkpoint()
    ensures
        thought_role_from_key(label_key(ThoughtRole::Checkpoint.name())) == Some(ThoughtRole::Checkpoint),
        label_key(ThoughtRole::Checkpoint.name()).len() == ThoughtRole::Checkpoint.name().len(),
        ThoughtRole::Checkpoint.name().len() > 0,
{
    reveal_with_fuel(label_key, 16);
    reveal_strlit("Checkpoint");
    reveal_strlit("memory");
    reveal_strlit("workingmemory");
    reveal_strlit("summary");
    reveal_strlit("compression");
    reveal_strlit("checkpoint");
    assert(label_key("Checkpoint"@) =~= "checkpoint"@);
    assert("checkpoint"@.len() != "memory"@.len());
    assert("checkpoint"@.len() != "workingmemory"@.len());
    assert("checkpoint"@.len() != "summary"@.len());
    assert("checkpoint"@.len() != "compression"@.len());
}

proof fn lemma_role_key_handoff()
    ensures
        thought_role_from_key(label_key(ThoughtRole::Handoff.name())) == Some(ThoughtRole::Handoff),
        label_key(ThoughtRole::Handoff.name()).len() == ThoughtRole::Handoff.name().len(),
        ThoughtRole::Handoff.name().len() > 0,
{
    reveal_with_fuel(label_key, 16);
    reveal_strlit("Handoff");
    reveal_strlit("memory");
    reveal_strlit("workingmemory");
    reveal_strlit("summary");
    reveal_strlit("compression");
    reveal_strlit("checkpoint");
    reveal_strlit("handoff");
    assert(label_key("Handoff"@) =~= "handoff"@);
    assert("handoff"@.len() != "memory"@.len());
    assert("handoff"@.len() != "workingmemory"@.len());
    assert("handoff"@[0] != "summary"@[0]);
    assert("handoff"@.len() != "compression"@.len());
    assert("handoff"@.len() != "checkpoint"@.len());
}

proof fn lemma_role_key_audit()
    ensures
        thought_role_from_key(label_key(ThoughtRole::Audit.name())) == Some(ThoughtRole::Audit),
        label_key(ThoughtRole::Audit.name()).len() == ThoughtRole::Audit.name().len(),
        ThoughtRole::Audit.name().len() > 0,
{
    reveal_with_fuel(label_key, 16);
    reveal_strlit("Audit");
    reveal_strlit("memory");
    reveal_strlit("workingmemory");
    reveal_strlit("summary");
    reveal_strlit("compression");
    reveal_strlit("checkpoint");
    reveal_strlit("handoff");
    reveal_strlit("audit");
    assert(label_key("Audit"@) =~= "audit"@);
    assert("audit"@.len() != "memory"@.len());
    assert("audit"@.len() != "workingmemory"@.len());
    assert("audit"@.len() != "summary"@.len());
    assert("audit"@.len() != "compression"@.len());
    assert("audit"@.len() != "checkpoint"@.len());
    assert("audit"@.len() != "handoff"@.len());
}

proof fn lemma_role_key_retrospective()
    ensures
        thought_role_from_key(label_key(ThoughtRole::Retrospective.name())) == Some(ThoughtRole::Retrospective),
        label_key(ThoughtRole::Retrospective.name()).len() == ThoughtRole::Retrospective.name().len(),
        ThoughtRole::Retrospective.name().len() > 0,
{
    reveal_with_fuel(label_key, 16);
    reveal_strlit("Retrospective");
    reveal_strlit("memory");
    reveal_strlit("workingmemory");
    reveal_strlit("summary");
    reveal_strlit("compression");
    reveal_strlit("checkpoint");
    reveal_strlit("handoff");
    reveal_strlit("audit");
    reveal_strlit("retrospective");
    assert(label_key("Retrospective"@) =~= "retrospective"@);
    assert("retrospective"@.len() != "memory"@.len());
    assert("retrospective"@[0] != "workingmemory"@[0]);
    assert("retrospective"@.len() != "summary"@.len());
    assert("retrospective"@.len() != "compression"@.len());
    assert("retrospective"@.len() != "checkpoint"@.len());
    assert("retrospective"@.len() != "handoff"@.len());
    assert("retrospective"@.len() != "audit"@.len());
}

proof fn lemma_role_key_dream()
    ensures
        thought_role_from_key(label_key(ThoughtRole::Dream.name())) == Some(ThoughtRole::Dream),
        label_key(ThoughtRole::Dream.name()).len() == ThoughtRole::Dream.name().len(),
        ThoughtRole::Dream.name().len() > 0,
{
    reveal_with_fuel(label_key, 16);
    reveal_strlit("Dream");
    reveal_strlit("memory");
    reveal_strlit("workingmemory");
    reveal_strlit("summary");
    reveal_strlit("compression");
    reveal_strlit("checkpoint");
    reveal_strlit("handoff");
    reveal_strlit("audit");
    reveal_strlit("retrospective");
    reveal_strlit("dream");
    assert(label_key("Dream"@) =~= "dream"@);
    assert("dream"@.len() != "memory"@.len());
    assert("dream"@.len() != "workingmemory"@.len());
    assert("dream"@.len() != "summary"@.len());
    assert("dream"@.len() != "compression"@.len());
    assert("dream"@.len() != "checkpoint"@.len());
    assert("dream"@.len() != "handoff"@.len());
    assert("dream"@[0] != "audit"@[0]);
    assert("dream"@.len() != "retrospective"@.len());
}

/// Reading the `{:?}` name of a role gives that role back.
pub proof fn lemma_role_name_roundtrip(r: ThoughtRole)
    ensures
        thought_role_from_key(label_key(r.name())) == Some(r),
        forall|i: int| 0 <= i < r.name().len() ==> is_ascii_alnum(#[trigger] r.name()[i]),
        r.name().len() > 0,
{
    lemma_label_key_len(r.name());
    match r {
        ThoughtRole::Memory => lemma_role_key_memory(),
        ThoughtRole::WorkingMemory => lemma_role_key_workingmemory(),
        ThoughtRole::Summary => lemma_role_key_summary(),
        ThoughtRole::Compression => lemma_role_key_compression(),
        ThoughtRole::Checkpoint => lemma_role_key_checkpoint(),
        ThoughtRole::Handoff => lemma_role_key_handoff(),
        ThoughtRole::Audit => lemma_role_key_audit(),
        ThoughtRole::Retrospective => lemma_role_key_retrospective(),
        ThoughtRole::Dream => lemma_role_key_dream(),
    }
}

} // verus!
