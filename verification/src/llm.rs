//! The checked part of memory extraction: validating what a language model
//! proposed, building its request, and the errors of the pipeline. The
//! model's output is untrusted; every proposed thought is checked here.
use vstd::prelude::*;
use crate::kinds::{label_key, thought_type_from_key, unknown_type_message, ThoughtRole, ThoughtType};
use crate::markdown::{join, split_on, split_chars};
use crate::model::{clamp_unit, ChainError, Score, ThoughtInput, HALF_RANK};
use crate::text::{chars_of, concat_str, decimal, string_from_chars, trim, trim_str, u64_to_decimal};

verus! {

/// The model asked when the configuration names none.
pub const DEFAULT_LLM_MODEL: &'static str = "gpt-4o";

/// The endpoint used when the configuration names none.
pub const DEFAULT_LLM_BASE_URL: &'static str = "https://api.openai.com/v1";

/// The system message of an extraction request.
pub const EXTRACTION_SYSTEM_MESSAGE: &'static str = "You are a helpful memory analyst.";

/// The type names substituted for `{{types}}` in a prompt template.
pub const PROMPT_TYPE_NAMES: &'static str = "PreferenceUpdate, UserTrait, RelationshipUpdate, Finding, Insight, FactLearned, PatternDetected, Hypothesis, Mistake, Correction, LessonLearned, AssumptionInvalidated, Constraint, Plan, Subgoal, Decision, StrategyShift, Wonder, Question, Idea, Experiment, ActionTaken, TaskComplete, Checkpoint, StateSnapshot, Handoff, Summary, Surprise, Reframe, Goal";

/// The default extraction prompt; the text to analyse follows it.
pub const EXTRACTION_PROMPT: &'static str = "You are a memory analyst. Your task is to extract structured memory records from the provided text.

For each distinct piece of information, emit a JSON object with these fields:
- thought_type: one of the valid ThoughtType names listed below
- content: a concise, factual memory statement (1-2 sentences max)
- importance: a float 0.0-1.0 indicating memory significance
- confidence: a float 0.0-1.0 indicating extraction certainty
- tags: array of lowercase string tags
- concepts: array of lowercase concept labels

Valid ThoughtType names:
PreferenceUpdate, UserTrait, RelationshipUpdate, Finding, Insight, FactLearned, PatternDetected,
Hypothesis, Mistake, Correction, LessonLearned, AssumptionInvalidated, Constraint, Plan,
Subgoal, Decision, StrategyShift, Wonder, Question, Idea, Experiment, ActionTaken,
TaskComplete, Checkpoint, StateSnapshot, Handoff, Summary, Surprise, Reframe, Goal

Rules:
1. Each memory must be independently meaningful — no cross-refs within the batch
2. Be conservative: only extract what is explicitly stated or strongly implied
3. Use the most specific ThoughtType that applies
4. Tags should be lowercase and concise (noun form preferred)
5. Return a JSON object with a \"thoughts\" array containing all extracted memories
6. If no memories can be extracted, return {\"thoughts\": []}

Input text:";

/// Where and how to reach an OpenAI-compatible chat endpoint.
pub struct LlmExtractionConfig {
    /// Base URL; the default endpoint when empty.
    pub base_url: String,
    /// API key; required.
    pub api_key: String,
    /// Model; the default model when empty.
    pub model: String,
}

/// Token counts of one request.
#[derive(Debug, Clone, Copy, PartialEq, Eq, Structural)]
pub struct TokenUsage {
    /// Tokens of the prompt.
    pub prompt_tokens: u32,
    /// Tokens of the completion.
    pub completion_tokens: u32,
    /// Tokens in all.
    pub total_tokens: u32,
}

impl Default for TokenUsage {
    fn default() -> (r: TokenUsage)
        ensures
            r == (TokenUsage { prompt_tokens: 0, completion_tokens: 0, total_tokens: 0 }),
    {
        TokenUsage { prompt_tokens: 0, completion_tokens: 0, total_tokens: 0 }
    }
}

/// The thoughts a model proposed, for the caller to review before appending.
pub struct ExtractionResult {
    /// The proposed thoughts.
    pub thoughts: Vec<ThoughtInput>,
    /// The model that proposed them.
    pub model: String,
    /// What the request cost.
    pub usage: TokenUsage,
}

/// Why an extraction failed.
#[derive(Debug)]
pub enum LlmExtractionError {
    /// The configuration is missing or unusable.
    NotConfigured(String),
    /// The endpoint refused the request.
    ApiError {
        /// HTTP status, or zero when none was received.
        status: u16,
        /// What the endpoint or client said.
        message: String,
    },
    /// The model's output is not valid JSON.
    ParseError(String),
    /// The model's output does not have the expected shape.
    SchemaMismatch(String),
    /// Reading or writing failed; the text of the failure.
    IoError(String),
}

impl LlmExtractionError {
    /// The text of the error.
    pub open spec fn spec_message(&self) -> Seq<char> {
        match self {
            LlmExtractionError::NotConfigured(m) => "LLM not configured: "@ + m@,
            LlmExtractionError::ApiError { status, message } => "LLM API error ("@ + decimal(*status as nat) + "): "@ + message@,
            LlmExtractionError::ParseError(m) => "Failed to parse LLM response: "@ + m@,
            LlmExtractionError::SchemaMismatch(m) => "LLM schema mismatch: "@ + m@,
            LlmExtractionError::IoError(m) => "I/O error: "@ + m@,
        }
    }

    /// The text of the error.
    pub fn message(&self) -> (r: String)
        ensures
            r@ == self.spec_message(),
    {
        match self {
            LlmExtractionError::NotConfigured(m) => concat_str("LLM not configured: ", m.as_str()),
            LlmExtractionError::ApiError { status, message } => {
                let s = u64_to_decimal(*status as u64);
                let a = concat_str("LLM API error (", s.as_str());
                let b = concat_str(a.as_str(), "): ");
                concat_str(b.as_str(), message.as_str())
            },
            LlmExtractionError::ParseError(m) => concat_str("Failed to parse LLM response: ", m.as_str()),
            LlmExtractionError::SchemaMismatch(m) => concat_str("LLM schema mismatch: ", m.as_str()),
            LlmExtractionError::IoError(m) => concat_str("I/O error: ", m.as_str()),
        }
    }
}

impl LlmExtractionConfig {
    /// A configuration from the values of `OPENAI_API_KEY`, `LLM_BASE_URL`
    /// and `LLM_MODEL`, each `None` when unset: the key is required, the
    /// endpoint and the model have defaults.
    pub fn from_values(api_key: Option<String>, base_url: Option<String>, model: Option<String>) -> (r: Result<LlmExtractionConfig, LlmExtractionError>)
        ensures
            api_key is None ==> (r matches Err(LlmExtractionError::NotConfigured(m)) && m@ == "OPENAI_API_KEY is not set"@),
            api_key matches Some(k) ==> (r matches Ok(c) && c.api_key@ == k@ && c.base_url@ == (match base_url {
                Some(b) => b@,
                None => DEFAULT_LLM_BASE_URL@,
            }) && c.model@ == (match model {
                Some(m) => m@,
                None => DEFAULT_LLM_MODEL@,
            })),
    {
        let api_key = match api_key {
            Some(k) => k,
            None => {
                return Err(LlmExtractionError::NotConfigured(String::from_str("OPENAI_API_KEY is not set")));
            },
        };
        let base_url = match base_url {
            Some(b) => b,
            None => String::from_str(DEFAULT_LLM_BASE_URL),
        };
        let model = match model {
            Some(m) => m,
            None => String::from_str(DEFAULT_LLM_MODEL),
        };
        Ok(LlmExtractionConfig { base_url, api_key, model })
    }
}

/// `s` without trailing occurrences of `c`.
pub open spec fn strip_trailing(s: Seq<char>, c: char) -> Seq<char>
    decreases s.len(),
{
    if s.len() > 0 && s.last() == c {
        strip_trailing(s.drop_last(), c)
    } else {
        s
    }
}

/// The model a configuration asks for.
pub open spec fn model_of(config: LlmExtractionConfig) -> Seq<char> {
    if config.model@.len() == 0 {
        DEFAULT_LLM_MODEL@
    } else {
        config.model@
    }
}

/// The endpoint a configuration names, without trailing slashes.
pub open spec fn endpoint_of(config: LlmExtractionConfig) -> Seq<char> {
    if config.base_url@.len() == 0 {
        DEFAULT_LLM_BASE_URL@
    } else {
        strip_trailing(config.base_url@, '/')
    }
}

/// The model a configuration asks for: its own, or the default.
pub fn model_name(config: &LlmExtractionConfig) -> (r: String)
    ensures
        r@ == model_of(*config),
{
    if config.model.unicode_len() == 0 {
        String::from_str(DEFAULT_LLM_MODEL)
    } else {
        config.model.clone()
    }
}

/// Where a chat request goes and which model it asks: refused without an
/// API key.
pub fn chat_endpoint(config: &LlmExtractionConfig) -> (r: Result<(String, String), LlmExtractionError>)
    ensures
        config.api_key@.len() == 0 ==> (r matches Err(LlmExtractionError::NotConfigured(m)) && m@ == "OPENAI_API_KEY is not set"@),
        config.api_key@.len() > 0 ==> (r matches Ok((u, m)) && u@ == endpoint_of(*config) && m@ == model_of(*config)),
{
    if config.api_key.unicode_len() == 0 {
        return Err(LlmExtractionError::NotConfigured(String::from_str("OPENAI_API_KEY is not set")));
    }
    let url = if config.base_url.unicode_len() == 0 {
        String::from_str(DEFAULT_LLM_BASE_URL)
    } else {
        let v = chars_of(config.base_url.as_str());
        let mut n = v.len();
        proof {
            assert(v@.take(v@.len() as int) =~= v@);
        }
        while n > 0 && v[n - 1] == '/'
            invariant
                v@ == config.base_url@,
                n <= v@.len(),
                strip_trailing(config.base_url@, '/') == strip_trailing(v@.take(n as int), '/'),
            decreases n,
        {
            proof {
                assert(v@.take(n as int).drop_last() =~= v@.take(n - 1));
            }
            n = n - 1;
        }
        let kept = crate::text::slice_chars(&v, 0, n);
        assert(kept@ =~= v@.take(n as int));
        string_from_chars(&kept)
    };
    Ok((url, model_name(config)))
}

/// `s` with every occurrence of `from` replaced by `to` (`str::replace`).
pub open spec fn replace_all(s: Seq<char>, from: Seq<char>, to: Seq<char>) -> Seq<char> {
    join(split_on(s, from), to)
}

fn replace_str(s: &str, from: &str, to: &str) -> (r: String)
    requires
        from@.len() > 0,
    ensures
        r@ == replace_all(s@, from@, to@),
{
    let pieces = split_chars(&chars_of(s), &chars_of(from));
    let mut parts: Vec<String> = Vec::new();
    let mut i: usize = 0;
    while i < pieces.len()
        invariant
            i <= pieces@.len(),
            parts@.len() == i,
            forall|k: int| 0 <= k < i ==> (#[trigger] parts@[k])@ == pieces@[k]@,
        decreases pieces@.len() - i,
    {
        parts.push(string_from_chars(&pieces[i]));
        i = i + 1;
    }
    assert(crate::model::views(parts@) =~= split_on(s@, from@));
    crate::markdown::join_strings(parts.as_slice(), to)
}

/// The user message of an extraction request: the template with the type
/// names and the text substituted, or the default prompt, a blank line and
/// the text.
pub open spec fn extraction_content(text: Seq<char>, template: Option<Seq<char>>) -> Seq<char> {
    match template {
        Some(t) => replace_all(replace_all(t, "{{types}}"@, PROMPT_TYPE_NAMES@), "{{text}}"@, text),
        None => trim(EXTRACTION_PROMPT@) + "\n\n"@ + text,
    }
}

/// Builds the user message of an extraction request.
pub fn extraction_user_content(text: &str, template: Option<&str>) -> (r: String)
    ensures
        r@ == extraction_content(text@, match template {
            Some(t) => Some(t@),
            None => None,
        }),
{
    proof {
        reveal_strlit("{{types}}");
        reveal_strlit("{{text}}");
    }
    match template {
        Some(t) => {
            let a = replace_str(t, "{{types}}", PROMPT_TYPE_NAMES);
            replace_str(a.as_str(), "{{text}}", text)
        },
        None => {
            let p = trim_str(EXTRACTION_PROMPT);
            let a = concat_str(p.as_str(), "\n\n");
            concat_str(a.as_str(), text)
        },
    }
}

/// Parses a thought type name, ignoring case and separators; the error is
/// the message that lists every valid name.
pub fn parse_thought_type(name: &str) -> (r: Result<ThoughtType, String>)
    ensures
        match thought_type_from_key(label_key(name@)) {
            Some(t) => r matches Ok(x) && x == t,
            None => r matches Err(m) && m@ == unknown_type_message(name@),
        },
{
    match ThoughtType::parse(name) {
        Ok(t) => Ok(t),
        Err(e) => Err(e.message()),
    }
}

/// One thought as a model proposed it, scores as [`Score`] ranks.
pub struct RawExtractedThought {
    /// The proposed type name.
    pub thought_type: String,
    /// The proposed content.
    pub content: String,
    /// The proposed importance.
    pub importance: Option<Score>,
    /// The proposed confidence.
    pub confidence: Option<Score>,
    /// The proposed tags.
    pub tags: Option<Vec<String>>,
    /// The proposed concepts.
    pub concepts: Option<Vec<String>>,
}

/// The message of a proposal whose type name is unknown.
pub open spec fn invalid_type_message(name: Seq<char>, i: nat) -> Seq<char> {
    "Invalid thought_type '"@ + name + "' at index "@ + decimal(i) + ": "@ + unknown_type_message(name)
}

/// The message of a proposal whose content is blank.
pub open spec fn empty_content_message(i: nat) -> Seq<char> {
    "Empty content at index "@ + decimal(i)
}

/// Whether a proposal is well formed: a known type and non-blank content.
pub open spec fn proposal_ok(raw: RawExtractedThought) -> bool {
    thought_type_from_key(label_key(raw.thought_type@)) is Some && trim(raw.content@).len() > 0
}

/// Whether `t` is the input a well-formed proposal becomes: its type, its
/// content trimmed, role `Memory`, importance and confidence clamped into
/// `[0, 1]` with one half for a missing one, its tags and concepts or none.
pub open spec fn transformed(raw: RawExtractedThought, t: ThoughtInput) -> bool {
    &&& Some(t.thought_type) == thought_type_from_key(label_key(raw.thought_type@))
    &&& t.content@ == trim(raw.content@)
    &&& t.role == ThoughtRole::Memory
    &&& t.importance == clamp_unit(match raw.importance {
        Some(s) => s,
        None => Score { rank: Some(HALF_RANK) },
    })
    &&& t.confidence == Some(clamp_unit(match raw.confidence {
        Some(s) => s,
        None => Score { rank: Some(HALF_RANK) },
    }))
    &&& t.tags@ == (match raw.tags {
        Some(v) => v@,
        None => Seq::empty(),
    })
    &&& t.concepts@ == (match raw.concepts {
        Some(v) => v@,
        None => Seq::empty(),
    })
    &&& t.session_id is None && t.agent_name is None && t.agent_owner is None
    &&& t.signing_key_id is None && t.thought_signature is None
    &&& t.refs@.len() == 0 && t.relations@.len() == 0
    &&& t.entity_type is None && t.source_episode is None
}

/// Checks a model's proposals and turns them into thought inputs. The first
/// proposal with an unknown type or blank content fails the whole batch.
pub fn validate_and_transform_thoughts(raw_thoughts: Vec<RawExtractedThought>) -> (r: Result<Vec<ThoughtInput>, LlmExtractionError>)
    ensures
        r is Ok <==> forall|i: int| 0 <= i < raw_thoughts@.len() ==> proposal_ok(#[trigger] raw_thoughts@[i]),
        r matches Ok(v) ==> v@.len() == raw_thoughts@.len() && forall|i: int|
            0 <= i < v@.len() ==> transformed(raw_thoughts@[i], #[trigger] v@[i]),
        r matches Err(e) ==> exists|i: int|
            0 <= i < raw_thoughts@.len() && !proposal_ok(#[trigger] raw_thoughts@[i]) && (forall|j: int|
                0 <= j < i ==> proposal_ok(#[trigger] raw_thoughts@[j])) && (e matches LlmExtractionError::SchemaMismatch(m) && m@
                == (if thought_type_from_key(label_key(raw_thoughts@[i].thought_type@)) is None {
                invalid_type_message(raw_thoughts@[i].thought_type@, i as nat)
            } else {
                empty_content_message(i as nat)
            })),
{
    let ghost orig = raw_thoughts@;
    let mut out: Vec<ThoughtInput> = Vec::new();
    let mut rest = raw_thoughts;
    let n = rest.len();
    let mut i: usize = 0;
    while i < n
        invariant
            orig == raw_thoughts@,
            n == orig.len(),
            i <= n,
            rest@ == orig.subrange(i as int, n as int),
            out@.len() == i,
            forall|k: int| 0 <= k < i ==> proposal_ok(#[trigger] orig[k]),
            forall|k: int| 0 <= k < i ==> transformed(orig[k], #[trigger] out@[k]),
        decreases n - i,
    {
        let raw = rest.remove(0);
        assert(raw == orig[i as int]);
        assert(rest@ =~= orig.subrange(i + 1, n as int));
        let thought_type = match parse_thought_type(raw.thought_type.as_str()) {
            Ok(t) => t,
            Err(e) => {
                let idx = u64_to_decimal(i as u64);
                let a = concat_str("Invalid thought_type '", raw.thought_type.as_str());
                let b = concat_str(a.as_str(), "' at index ");
                let c = concat_str(b.as_str(), idx.as_str());
                let d = concat_str(c.as_str(), ": ");
                let m = concat_str(d.as_str(), e.as_str());
                proof {
                    assert(!proposal_ok(orig[i as int]));
                    assert(m@ =~= invalid_type_message(orig[i as int].thought_type@, i as nat));
                }
                return Err(LlmExtractionError::SchemaMismatch(m));
            },
        };
        let content = trim_str(raw.content.as_str());
        if content.unicode_len() == 0 {
            let idx = u64_to_decimal(i as u64);
            let m = concat_str("Empty content at index ", idx.as_str());
            proof {
                assert(!proposal_ok(orig[i as int]));
                assert(m@ =~= empty_content_message(i as nat));
            }
            return Err(LlmExtractionError::SchemaMismatch(m));
        }
        let importance = match raw.importance {
            Some(s) => s,
            None => Score { rank: Some(HALF_RANK) },
        };
        let confidence = match raw.confidence {
            Some(s) => s,
            None => Score { rank: Some(HALF_RANK) },
        };
        let tags = match raw.tags {
            Some(v) => v,
            None => Vec::new(),
        };
        let concepts = match raw.concepts {
            Some(v) => v,
            None => Vec::new(),
        };
        out.push(ThoughtInput {
            session_id: None,
            agent_name: None,
            agent_owner: None,
            signing_key_id: None,
            thought_signature: None,
            thought_type,
            role: ThoughtRole::Memory,
            content,
            confidence: Some(confidence.clamped()),
            importance: importance.clamped(),
            tags,
            concepts,
            refs: Vec::new(),
            relations: Vec::new(),
            entity_type: None,
            source_episode: None,
        });
        i = i + 1;
    }
    Ok(out)
}

} // verus!
