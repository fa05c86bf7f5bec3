//! The MEMORY.md bullet format: one thought per line,
//! `- [#N] TypeName: content (agent id; role R; importance I; confidence C; tags a, b)`.
//! This module reads such lines back; scores stay text for the caller to
//! turn into numbers.
use vstd::prelude::*;
use crate::kinds::{label_key, thought_role_from_key, thought_type_from_key, ThoughtRole, ThoughtType, parse_thought_role_from_debug};
use crate::model::{clamp_unit, clone_strings, is_finite_score, opt_view, views, Score, Thought, ThoughtInput, HALF_RANK};
use crate::registry::{AgentRecord, AgentRegistry};
use crate::chain::MentisDb;
use crate::query::{query_result, ThoughtQuery};
use crate::text::{
    chars_of, find_chars, first_occurrence, first_occurrence_from, lemma_first_occurrence_from, occurs_at, slice_chars,
    string_from_chars, trim, trim_chars, trim_start, trim_start_chars, concat_str, str_eq, trim_str,
};

verus! {

/// Whether `s` starts with `p`.
pub open spec fn starts_with(s: Seq<char>, p: Seq<char>) -> bool {
    p.len() <= s.len() && s.take(p.len() as int) == p
}

/// The pieces of `s` between the occurrences of a non-empty `sep`, found
/// from the left (`str::split`).
pub open spec fn split_on(s: Seq<char>, sep: Seq<char>) -> Seq<Seq<char>>
    decreases s.len(),
{
    if sep.len() == 0 {
        seq![s]
    } else {
        match first_occurrence(s, sep) {
            None => seq![s],
            Some(i) => {
                proof {
                    lemma_first_occurrence_from(s, sep, 0);
                }
                seq![s.take(i)] + split_on(s.skip(i + sep.len()), sep)
            },
        }
    }
}

/// The pieces of `v` between the occurrences of `sep`.
pub fn split_chars(v: &[char], sep: &[char]) -> (r: Vec<Vec<char>>)
    requires
        sep@.len() > 0,
    ensures
        r@.len() == split_on(v@, sep@).len(),
        forall|i: int| 0 <= i < r@.len() ==> (#[trigger] r@[i])@ == split_on(v@, sep@)[i],
{
    let mut r: Vec<Vec<char>> = Vec::new();
    let mut start: usize = 0;
    let n = v.len();
    assert(v@.skip(0) =~= v@);
    loop
        invariant
            n == v@.len(),
            sep@.len() > 0,
            start <= n,
            split_on(v@, sep@) =~= r@.map_values(|x: Vec<char>| x@) + split_on(v@.skip(start as int), sep@),
        decreases n - start,
    {
        let ghost rest = v@.skip(start as int);
        match find_chars(v, sep, start) {
            Some(i) => {
                proof {
                    lemma_first_occurrence_from(v@, sep@, start as int);
                    lemma_occurrence_shift(v@, sep@, start as int);
                }
                let piece = slice_chars(v, start, i);
                let ghost r0 = r@;
                r.push(piece);
                proof {
                    let k = i - start;
                    assert(first_occurrence(rest, sep@) == Some(k));
                    assert(rest.take(k) =~= piece@);
                    assert(rest.skip(k + sep@.len()) =~= v@.skip(i + sep@.len()));
                    assert(r@.map_values(|x: Vec<char>| x@) =~= r0.map_values(|x: Vec<char>| x@).push(piece@));
                }
                start = i + sep.len();
            },
            None => {
                proof {
                    lemma_occurrence_shift(v@, sep@, start as int);
                    assert(first_occurrence(rest, sep@) is None);
                }
                let piece = slice_chars(v, start, n);
                let ghost r0 = r@;
                r.push(piece);
                proof {
                    assert(rest =~= piece@);
                    assert(r@.map_values(|x: Vec<char>| x@) =~= r0.map_values(|x: Vec<char>| x@).push(piece@));
                    assert(split_on(v@, sep@) =~= r@.map_values(|x: Vec<char>| x@));
                }
                return r;
            },
        }
    }
}

/// Searching the rest of a sequence is searching the sequence from where
/// the rest begins.
proof fn lemma_occurrence_shift(s: Seq<char>, p: Seq<char>, k: int)
    requires
        0 <= k <= s.len(),
    ensures
        match first_occurrence_from(s, p, k) {
            Some(i) => first_occurrence(s.skip(k), p) == Some(i - k),
            None => first_occurrence(s.skip(k), p) is None,
        },
{
    lemma_occurrence_shift_from(s, p, k, k);
}

proof fn lemma_occurrence_shift_from(s: Seq<char>, p: Seq<char>, k: int, j: int)
    requires
        0 <= k <= j,
        k <= s.len(),
    ensures
        match first_occurrence_from(s, p, j) {
            Some(i) => first_occurrence_from(s.skip(k), p, j - k) == Some(i - k),
            None => first_occurrence_from(s.skip(k), p, j - k) is None,
        },
    decreases s.len() + 1 - j,
{
    let t = s.skip(k);
    if j + p.len() <= s.len() {
        assert(occurs_at(s, p, j) == occurs_at(t, p, j - k)) by {
            assert(s.subrange(j, j + p.len()) =~= t.subrange(j - k, j - k + p.len()));
        }
        if !occurs_at(s, p, j) {
            lemma_occurrence_shift_from(s, p, k, j + 1);
        }
    }
}

/// The greatest position at or before `k` where ` (agent ` occurs in `s`.
pub open spec fn metadata_start_from(s: Seq<char>, k: int) -> Option<int>
    decreases k + 1,
{
    if k < 0 {
        None
    } else if occurs_at(s, " (agent "@, k) {
        Some(k)
    } else {
        metadata_start_from(s, k - 1)
    }
}

/// Where the metadata block of a bullet begins: the last ` (` followed by
/// `agent `, in a text that ends with `)`.
pub open spec fn metadata_start(s: Seq<char>) -> Option<int> {
    if s.len() > 0 && s.last() == ')' {
        metadata_start_from(s, s.len() - 1)
    } else {
        None
    }
}

proof fn lemma_metadata_start_from(s: Seq<char>, k: int)
    ensures
        metadata_start_from(s, k) matches Some(i) ==> 0 <= i <= k && occurs_at(s, " (agent "@, i),
    decreases k + 1,
{
    if k >= 0 && !occurs_at(s, " (agent "@, k) {
        lemma_metadata_start_from(s, k - 1);
    }
}

/// Finds where the metadata block of a bullet begins, as a character
/// position: the last ` (agent ` in a text that ends with `)`.
pub fn find_metadata_start(s: &str) -> (r: Option<usize>)
    ensures
        match r {
            Some(i) => metadata_start(s@) == Some(i as int),
            None => metadata_start(s@) is None,
        },
{
    let v = chars_of(s);
    let n = v.len();
    if n == 0 || v[n - 1] != ')' {
        return None;
    }
    let pat = chars_of(" (agent ");
    let mut k: usize = n;
    while k > 0
        invariant
            v@ == s@,
            n == v@.len(),
            n > 0,
            pat@ == " (agent "@,
            k <= n,
            metadata_start(s@) == metadata_start_from(s@, k - 1),
        decreases k,
    {
        let at = k - 1;
        let hit = match find_chars(&v, &pat, at) {
            Some(i) => i == at,
            None => false,
        };
        proof {
            lemma_first_occurrence_from(v@, pat@, at as int);
            if occurs_at(v@, pat@, at as int) {
                assert(first_occurrence_from(v@, pat@, at as int) == Some(at as int));
            }
        }
        if hit {
            return Some(at);
        }
        k = k - 1;
    }
    None
}

/// The pieces of a list, trimmed, without the empty ones.
pub open spec fn trimmed_nonempty(pieces: Seq<Seq<char>>) -> Seq<Seq<char>>
    decreases pieces.len(),
{
    if pieces.len() == 0 {
        Seq::empty()
    } else {
        let prev = trimmed_nonempty(pieces.drop_last());
        let t = trim(pieces.last());
        if t.len() == 0 {
            prev
        } else {
            prev.push(t)
        }
    }
}

/// What a metadata block says: agent, role, importance text, confidence
/// text and tags.
pub type MetadataModel = (Option<Seq<char>>, ThoughtRole, Option<Seq<char>>, Option<Seq<char>>, Seq<Seq<char>>);

/// The metadata of a bullet without a block.
pub open spec fn default_metadata() -> MetadataModel {
    (None, ThoughtRole::Memory, None, None, Seq::empty())
}

/// One `; `-separated token applied to the metadata read so far: a later
/// token of a kind replaces an earlier one, an unknown role reads as
/// `Memory`, and tokens of no known kind are ignored.
pub open spec fn apply_token(m: MetadataModel, token: Seq<char>) -> MetadataModel {
    let t = trim(token);
    if starts_with(t, "agent "@) {
        (Some(trim(t.skip(6))), m.1, m.2, m.3, m.4)
    } else if starts_with(t, "role "@) {
        (
            m.0,
            match thought_role_from_key(label_key(trim(t.skip(5)))) {
                Some(r) => r,
                None => ThoughtRole::Memory,
            },
            m.2,
            m.3,
            m.4,
        )
    } else if starts_with(t, "importance "@) {
        (m.0, m.1, Some(trim(t.skip(11))), m.3, m.4)
    } else if starts_with(t, "confidence "@) {
        (m.0, m.1, m.2, Some(trim(t.skip(11))), m.4)
    } else if starts_with(t, "tags "@) {
        (m.0, m.1, m.2, m.3, trimmed_nonempty(split_on(t.skip(5), ", "@)))
    } else {
        m
    }
}

/// The metadata that a sequence of tokens sets, from the first to the last.
pub open spec fn metadata_of_tokens(tokens: Seq<Seq<char>>) -> MetadataModel
    decreases tokens.len(),
{
    if tokens.len() == 0 {
        default_metadata()
    } else {
        apply_token(metadata_of_tokens(tokens.drop_last()), tokens.last())
    }
}

/// The metadata a block such as `agent alice; role Retrospective;
/// importance 0.75; confidence 0.90; tags tag1, tag2` sets.
pub open spec fn metadata_of(meta: Seq<char>) -> MetadataModel {
    metadata_of_tokens(split_on(meta, "; "@))
}

/// The metadata of a bullet, with the scores as the text that follows
/// their keyword.
pub struct MarkdownMetadata {
    /// The agent id, if given.
    pub agent_id: Option<String>,
    /// The role; `Memory` when absent or unknown.
    pub role: ThoughtRole,
    /// The importance text, if given.
    pub importance: Option<String>,
    /// The confidence text, if given.
    pub confidence: Option<String>,
    /// The tags.
    pub tags: Vec<String>,
}

impl MarkdownMetadata {
    /// The metadata as a model.
    pub open spec fn model(&self) -> MetadataModel {
        (opt_view(self.agent_id), self.role, opt_view(self.importance), opt_view(self.confidence), views(self.tags@))
    }
}

pub(crate) fn starts_with_chars(v: &[char], p: &str) -> (r: bool)
    ensures
        r == starts_with(v@, p@),
{
    let pv = chars_of(p);
    if pv.len() > v.len() {
        return false;
    }
    let mut i: usize = 0;
    while i < pv.len()
        invariant
            pv@ == p@,
            pv@.len() <= v@.len(),
            i <= pv@.len(),
            forall|j: int| 0 <= j < i ==> v@[j] == pv@[j],
        decreases pv@.len() - i,
    {
        if v[i] != pv[i] {
            assert(v@.take(pv@.len() as int)[i as int] != p@[i as int]);
            return false;
        }
        i = i + 1;
    }
    assert(v@.take(pv@.len() as int) =~= p@);
    true
}

/// Trims the characters of `v` from `from` on into a string.
fn trimmed_from(v: &[char], from: usize) -> (r: String)
    requires
        from <= v@.len(),
    ensures
        r@ == trim(v@.skip(from as int)),
{
    let rest = slice_chars(v, from, v.len());
    assert(rest@ =~= v@.skip(from as int));
    let t = trim_chars(&rest);
    string_from_chars(&t)
}

/// The tags of a `tags` token: the `, `-separated pieces, trimmed, without
/// the empty ones.
fn tag_list(v: &[char], from: usize) -> (r: Vec<String>)
    requires
        from <= v@.len(),
    ensures
        views(r@) == trimmed_nonempty(split_on(v@.skip(from as int), ", "@)),
{
    let rest = slice_chars(v, from, v.len());
    assert(rest@ =~= v@.skip(from as int));
    let sep = chars_of(", ");
    proof {
        reveal_strlit(", ");
    }
    let pieces = split_chars(&rest, &sep);
    let ghost ps = split_on(rest@, sep@);
    let mut r: Vec<String> = Vec::new();
    let mut i: usize = 0;
    while i < pieces.len()
        invariant
            pieces@.len() == ps.len(),
            forall|k: int| 0 <= k < pieces@.len() ==> (#[trigger] pieces@[k])@ == ps[k],
            i <= pieces@.len(),
            views(r@) == trimmed_nonempty(ps.take(i as int)),
        decreases pieces@.len() - i,
    {
        let t = trim_chars(&pieces[i]);
        let ghost before = r@;
        if t.len() > 0 {
            r.push(string_from_chars(&t));
        }
        proof {
            assert(ps.take(i + 1).drop_last() =~= ps.take(i as int));
            assert(ps.take(i + 1).last() == ps[i as int]);
            if t@.len() > 0 {
                assert(views(r@) =~= views(before).push(t@));
            } else {
                assert(views(r@) =~= views(before));
            }
        }
        i = i + 1;
    }
    assert(ps.take(ps.len() as int) =~= ps);
    r
}

/// Reads a metadata block such as `agent alice; role Retrospective;
/// importance 0.75; confidence 0.90; tags tag1, tag2`.
pub fn parse_metadata_block(meta: &str) -> (r: MarkdownMetadata)
    ensures
        r.model() == metadata_of(meta@),
{
    let v = chars_of(meta);
    let sep = chars_of("; ");
    proof {
        reveal_strlit("; ");
    }
    let tokens = split_chars(&v, &sep);
    let ghost ts = split_on(meta@, "; "@);
    let mut m = MarkdownMetadata { agent_id: None, role: ThoughtRole::Memory, importance: None, confidence: None, tags: Vec::new() };
    proof {
        assert(views(m.tags@) =~= Seq::<Seq<char>>::empty());
    }
    let mut i: usize = 0;
    while i < tokens.len()
        invariant
            tokens@.len() == ts.len(),
            forall|k: int| 0 <= k < tokens@.len() ==> (#[trigger] tokens@[k])@ == ts[k],
            i <= tokens@.len(),
            m.model() == metadata_of_tokens(ts.take(i as int)),
        decreases tokens@.len() - i,
    {
        let t = trim_chars(&tokens[i]);
        proof {
            reveal_strlit("agent ");
            reveal_strlit("role ");
            reveal_strlit("importance ");
            reveal_strlit("confidence ");
            reveal_strlit("tags ");
            assert(ts.take(i + 1).drop_last() =~= ts.take(i as int));
            assert(ts.take(i + 1).last() == ts[i as int]);
        }
        if starts_with_chars(&t, "agent ") {
            m.agent_id = Some(trimmed_from(&t, 6));
        } else if starts_with_chars(&t, "role ") {
            let name = trimmed_from(&t, 5);
            m.role = match parse_thought_role_from_debug(name.as_str()) {
                Some(r) => r,
                None => ThoughtRole::Memory,
            };
        } else if starts_with_chars(&t, "importance ") {
            m.importance = Some(trimmed_from(&t, 11));
        } else if starts_with_chars(&t, "confidence ") {
            m.confidence = Some(trimmed_from(&t, 11));
        } else if starts_with_chars(&t, "tags ") {
            m.tags = tag_list(&t, 5);
        }
        i = i + 1;
    }
    assert(ts.take(ts.len() as int) =~= ts);
    m
}

/// What a MEMORY.md bullet line says: its thought type, its content and its
/// metadata, or `None` for a line that is no such bullet. The index in
/// brackets is skipped; the type name is parsed as thought type labels are;
/// the content is what precedes the metadata block, trimmed, and must not be
/// empty.
pub open spec fn parsed_line(line: Seq<char>) -> Option<(ThoughtType, Seq<char>, MetadataModel)> {
    let l = trim(line);
    if !starts_with(l, "- ["@) {
        None
    } else {
        let rest = l.skip(3);
        match first_occurrence(rest, "]"@) {
            None => None,
            Some(b) => {
                let after = trim_start(rest.skip(b + 1));
                match first_occurrence(after, ": "@) {
                    None => None,
                    Some(c) => match thought_type_from_key(label_key(after.take(c))) {
                        None => None,
                        Some(tt) => {
                            let cm = after.skip(c + 2);
                            let (content, meta) = match metadata_start(cm) {
                                Some(m) => (trim(cm.take(m)), metadata_of(cm.subrange(m + 2, cm.len() - 1))),
                                None => (trim(cm), default_metadata()),
                            };
                            if content.len() == 0 {
                                None
                            } else {
                                Some((tt, content, meta))
                            }
                        },
                    },
                }
            },
        }
    }
}

/// A bullet line read back.
pub struct MarkdownThoughtLine {
    /// The thought type.
    pub thought_type: ThoughtType,
    /// The content.
    pub content: String,
    /// The metadata.
    pub metadata: MarkdownMetadata,
}

impl MarkdownThoughtLine {
    /// Whether the line read back is the one [`parsed_line`] describes.
    pub open spec fn is(&self, p: (ThoughtType, Seq<char>, MetadataModel)) -> bool {
        self.thought_type == p.0 && self.content@ == p.1 && self.metadata.model() == p.2
    }
}

/// Reads a MEMORY.md bullet line such as
/// `- [#3] Decision: Use PostgreSQL (agent alice; importance 0.90)`.
pub fn parse_memory_markdown_line(line: &str) -> (r: Option<MarkdownThoughtLine>)
    ensures
        match parsed_line(line@) {
            None => r is None,
            Some(p) => r matches Some(x) && x.is(p),
        },
{
    proof {
        reveal_strlit("- [");
        reveal_strlit("]");
        reveal_strlit(": ");
    }
    let l = trim_chars(&chars_of(line));
    if !starts_with_chars(&l, "- [") {
        return None;
    }
    let rest = slice_chars(&l, 3, l.len());
    assert(rest@ =~= l@.skip(3));
    let close = match find_chars(&rest, &chars_of("]"), 0) {
        Some(c) => c,
        None => {
            return None;
        },
    };
    proof {
        lemma_first_occurrence_from(rest@, "]"@, 0);
    }
    let tail = slice_chars(&rest, close + 1, rest.len());
    assert(tail@ =~= rest@.skip(close + 1));
    let after = trim_start_chars(&tail);
    let colon = match find_chars(&after, &chars_of(": "), 0) {
        Some(c) => c,
        None => {
            return None;
        },
    };
    proof {
        lemma_first_occurrence_from(after@, ": "@, 0);
    }
    let name = slice_chars(&after, 0, colon);
    assert(name@ =~= after@.take(colon as int));
    let name_s = string_from_chars(&name);
    let tt = match ThoughtType::parse(name_s.as_str()) {
        Ok(t) => t,
        Err(_) => {
            return None;
        },
    };
    let alen = after.len();
    assert(colon + 2 <= alen);
    let cm = slice_chars(&after, colon + 2, alen);
    assert(cm@ =~= after@.skip(colon + 2));
    let cm_s = string_from_chars(&cm);
    let (content, metadata) = match find_metadata_start(cm_s.as_str()) {
        Some(m) => {
            proof {
                lemma_metadata_start_from(cm@, cm@.len() - 1);
                reveal_strlit(" (agent ");
            }
            let head = slice_chars(&cm, 0, m);
            assert(head@ =~= cm@.take(m as int));
            let inner = slice_chars(&cm, m + 2, cm.len() - 1);
            let meta = parse_metadata_block(string_from_chars(&inner).as_str());
            (trim_chars(&head), meta)
        },
        None => {
            let meta = MarkdownMetadata { agent_id: None, role: ThoughtRole::Memory, importance: None, confidence: None, tags: Vec::new() };
            assert(views(meta.tags@) =~= Seq::<Seq<char>>::empty());
            (trim_chars(&cm), meta)
        },
    };
    if content.len() == 0 {
        return None;
    }
    Some(MarkdownThoughtLine { thought_type: tt, content: string_from_chars(&content), metadata })
}

/// What the bullet lines of a text say, in order; other lines are skipped.
pub open spec fn parsed_lines(lines: Seq<Seq<char>>) -> Seq<(ThoughtType, Seq<char>, MetadataModel)>
    decreases lines.len(),
{
    if lines.len() == 0 {
        Seq::empty()
    } else {
        let prev = parsed_lines(lines.drop_last());
        match parsed_line(lines.last()) {
            Some(p) => prev.push(p),
            None => prev,
        }
    }
}

/// Reads every bullet line of a MEMORY.md text, in order, skipping
/// headings, blank lines and malformed entries.
pub fn memory_markdown_entries(markdown: &str) -> (r: Vec<MarkdownThoughtLine>)
    ensures
        r@.len() == parsed_lines(split_on(markdown@, "\n"@)).len(),
        forall|i: int| 0 <= i < r@.len() ==> (#[trigger] r@[i]).is(parsed_lines(split_on(markdown@, "\n"@))[i]),
{
    let v = chars_of(markdown);
    let sep = chars_of("\n");
    proof {
        reveal_strlit("\n");
    }
    let lines = split_chars(&v, &sep);
    let ghost ls = split_on(markdown@, "\n"@);
    let mut r: Vec<MarkdownThoughtLine> = Vec::new();
    let mut i: usize = 0;
    while i < lines.len()
        invariant
            lines@.len() == ls.len(),
            forall|k: int| 0 <= k < lines@.len() ==> (#[trigger] lines@[k])@ == ls[k],
            i <= lines@.len(),
            r@.len() == parsed_lines(ls.take(i as int)).len(),
            forall|k: int| 0 <= k < r@.len() ==> (#[trigger] r@[k]).is(parsed_lines(ls.take(i as int))[k]),
        decreases lines@.len() - i,
    {
        let text = string_from_chars(&lines[i]);
        let parsed = parse_memory_markdown_line(text.as_str());
        let ghost before = r@;
        proof {
            assert(ls.take(i + 1).drop_last() =~= ls.take(i as int));
            assert(ls.take(i + 1).last() == ls[i as int]);
        }
        match parsed {
            Some(x) => {
                r.push(x);
                proof {
                    let prev = parsed_lines(ls.take(i as int));
                    let cur = parsed_lines(ls.take(i + 1));
                    assert forall|k: int| 0 <= k < r@.len() implies (#[trigger] r@[k]).is(cur[k]) by {
                        if k < before.len() {
                            assert(r@[k] == before[k]);
                            assert(cur[k] == prev[k]);
                        }
                    }
                }
            },
            None => {},
        }
        i = i + 1;
    }
    assert(ls.take(ls.len() as int) =~= ls);
    r
}

/// Whether the registry holds a record for `id`.
pub open spec fn is_registered(reg: AgentRegistry, id: Seq<char>) -> bool {
    exists|i: int| 0 <= i < reg.agents@.len() && (#[trigger] reg.agents@[i]).agent_id@ == id
}

/// The record for `id`, when the registry holds one.
pub open spec fn record_for(reg: AgentRegistry, id: Seq<char>) -> AgentRecord {
    reg.agents@[choose|i: int| 0 <= i < reg.agents@.len() && (#[trigger] reg.agents@[i]).agent_id@ == id]
}

/// How a thought's agent is shown: the display name with the id in
/// brackets when the record has a name of its own, the id otherwise, and
/// the owner after `owned by` when the record has a non-blank one.
pub open spec fn agent_label(reg: AgentRegistry, t: Thought) -> Seq<char> {
    let id = t.agent_id@;
    if is_registered(reg, id) {
        let rec = record_for(reg, id);
        let base = if trim(rec.display_name@).len() == 0 || rec.display_name@ == id {
            id
        } else {
            rec.display_name@ + " ["@ + id + "]"@
        };
        match rec.owner {
            Some(o) => if trim(o@).len() > 0 {
                base + " owned by "@ + o@
            } else {
                base
            },
            None => base,
        }
    } else {
        id
    }
}

/// The label of a thought's agent; see [`agent_label`].
pub fn agent_label_for(reg: &AgentRegistry, thought: &Thought) -> (r: String)
    requires
        reg.wf(),
    ensures
        r@ == agent_label(*reg, *thought),
{
    let ghost id = thought.agent_id@;
    match reg.get(thought.agent_id.as_str()) {
        Some(rec) => {
            proof {
                let k = choose|k: int| 0 <= k < reg.agents@.len() && reg.agents@[k] == *rec;
                assert(reg.agents@[k].agent_id@ == id);
                assert(is_registered(*reg, id));
                assert forall|i: int| 0 <= i < reg.agents@.len() && (#[trigger] reg.agents@[i]).agent_id@ == id implies reg.agents@[i] == *rec by {
                    crate::query::lemma_registry_ids_unique(*reg, i, k);
                }
            }
            let name_blank = trim_str(rec.display_name.as_str()).unicode_len() == 0;
            let mut label = if name_blank || str_eq(rec.display_name.as_str(), thought.agent_id.as_str()) {
                thought.agent_id.clone()
            } else {
                let a = concat_str(rec.display_name.as_str(), " [");
                let b = concat_str(a.as_str(), thought.agent_id.as_str());
                concat_str(b.as_str(), "]")
            };
            if let Some(o) = &rec.owner {
                if trim_str(o.as_str()).unicode_len() > 0 {
                    let a = concat_str(label.as_str(), " owned by ");
                    label = concat_str(a.as_str(), o.as_str());
                }
            }
            label
        },
        None => {
            proof {
                assert(!is_registered(*reg, id));
            }
            thought.agent_id.clone()
        },
    }
}

/// The importance and confidence of a thought as the export shows them
/// (two decimals); the confidence text is shown only for a thought that
/// has a confidence.
pub struct ScoreText {
    /// The importance, rendered.
    pub importance: String,
    /// The confidence, rendered.
    pub confidence: String,
}

/// The parts joined with `sep` between them.
pub open spec fn join(parts: Seq<Seq<char>>, sep: Seq<char>) -> Seq<char>
    decreases parts.len(),
{
    if parts.len() == 0 {
        Seq::empty()
    } else if parts.len() == 1 {
        parts[0]
    } else {
        join(parts.drop_last(), sep) + sep + parts.last()
    }
}

/// The metadata entries of an exported bullet.
pub open spec fn item_metadata(reg: AgentRegistry, t: Thought, s: ScoreText) -> Seq<Seq<char>> {
    seq!["agent "@ + agent_label(reg, t)] + (if t.role != ThoughtRole::Memory {
        seq!["role "@ + t.role.name()]
    } else {
        Seq::empty()
    }) + seq!["importance "@ + s.importance@] + (if t.confidence is Some {
        seq!["confidence "@ + s.confidence@]
    } else {
        Seq::empty()
    }) + (if t.tags@.len() > 0 {
        seq!["tags "@ + join(views(t.tags@), ", "@)]
    } else {
        Seq::empty()
    })
}

/// One exported bullet line, newline included.
pub open spec fn item_line(reg: AgentRegistry, t: Thought, s: ScoreText) -> Seq<char> {
    "- [#"@ + crate::text::decimal(t.index as nat) + "] "@ + t.thought_type.name() + ": "@ + t.content@ + " ("@
        + join(item_metadata(reg, t, s), "; "@) + ")\n"@
}

/// The bullets of the thoughts at positions `ps` whose type is one of `types`.
pub open spec fn section_body(
    reg: AgentRegistry,
    thoughts: Seq<Thought>,
    scores: Seq<ScoreText>,
    types: Seq<ThoughtType>,
    ps: Seq<usize>,
) -> Seq<char>
    decreases ps.len(),
{
    if ps.len() == 0 {
        Seq::empty()
    } else {
        let prev = section_body(reg, thoughts, scores, types, ps.drop_last());
        let p = ps.last() as int;
        if types.contains(thoughts[p].thought_type) {
            prev + item_line(reg, thoughts[p], scores[p])
        } else {
            prev
        }
    }
}

/// Whether one of the thoughts at positions `ps` has one of `types`.
pub open spec fn section_has_items(thoughts: Seq<Thought>, types: Seq<ThoughtType>, ps: Seq<usize>) -> bool {
    exists|i: int| 0 <= i < ps.len() && types.contains(thoughts[#[trigger] ps[i] as int].thought_type)
}

/// A section: a heading and its bullets, or nothing when it has none.
pub open spec fn section(
    reg: AgentRegistry,
    thoughts: Seq<Thought>,
    scores: Seq<ScoreText>,
    title: Seq<char>,
    types: Seq<ThoughtType>,
    ps: Seq<usize>,
) -> Seq<char> {
    if section_has_items(thoughts, types, ps) {
        "## "@ + title + "\n\n"@ + section_body(reg, thoughts, scores, types, ps) + "\n"@
    } else {
        Seq::empty()
    }
}

/// The sections of the export, in order, with the thought types each
/// gathers.
pub open spec fn memory_section(k: int) -> (Seq<char>, Seq<ThoughtType>) {
    if k == 0 {
        ("Identity"@, seq![ThoughtType::PreferenceUpdate, ThoughtType::UserTrait, ThoughtType::RelationshipUpdate])
    } else if k == 1 {
        (
            "Knowledge"@,
            seq![
                ThoughtType::Finding,
                ThoughtType::Insight,
                ThoughtType::FactLearned,
                ThoughtType::PatternDetected,
                ThoughtType::Hypothesis,
                ThoughtType::Surprise,
            ],
        )
    } else if k == 2 {
        (
            "Constraints And Decisions"@,
            seq![ThoughtType::Constraint, ThoughtType::Plan, ThoughtType::Subgoal, ThoughtType::Decision, ThoughtType::StrategyShift],
        )
    } else if k == 3 {
        (
            "Corrections"@,
            seq![
                ThoughtType::Mistake,
                ThoughtType::Correction,
                ThoughtType::LessonLearned,
                ThoughtType::AssumptionInvalidated,
                ThoughtType::Reframe,
            ],
        )
    } else if k == 4 {
        ("Open Threads"@, seq![ThoughtType::Wonder, ThoughtType::Question, ThoughtType::Idea, ThoughtType::Experiment])
    } else {
        (
            "Execution State"@,
            seq![
                ThoughtType::ActionTaken,
                ThoughtType::TaskComplete,
                ThoughtType::Checkpoint,
                ThoughtType::StateSnapshot,
                ThoughtType::Handoff,
                ThoughtType::Summary,
            ],
        )
    }
}

/// The first `k` sections of the export.
pub open spec fn sections_upto(reg: AgentRegistry, thoughts: Seq<Thought>, scores: Seq<ScoreText>, ps: Seq<usize>, k: int) -> Seq<char>
    decreases k,
{
    if k <= 0 {
        Seq::empty()
    } else {
        sections_upto(reg, thoughts, scores, ps, k - 1) + section(
            reg,
            thoughts,
            scores,
            memory_section(k - 1).0,
            memory_section(k - 1).1,
            ps,
        )
    }
}

/// The MEMORY.md export of the thoughts at positions `ps`: a heading, a
/// line naming the storage location and the number of thoughts, then the
/// sections.
pub open spec fn memory_markdown(
    reg: AgentRegistry,
    thoughts: Seq<Thought>,
    scores: Seq<ScoreText>,
    ps: Seq<usize>,
    location: Seq<char>,
) -> Seq<char> {
    "# MEMORY\n\n"@ + "Generated from `"@ + location + "` with "@ + crate::text::decimal(ps.len()) + " thought(s).\n\n"@
        + sections_upto(reg, thoughts, scores, ps, 6)
}

/// The strings joined with `sep` between them.
pub fn join_strings(parts: &[String], sep: &str) -> (r: String)
    ensures
        r@ == join(views(parts@), sep@),
{
    if parts.len() == 0 {
        return String::new();
    }
    let mut acc = parts[0].clone();
    let mut i: usize = 1;
    proof {
        assert(views(parts@.take(1)) =~= seq![parts@[0]@]);
    }
    while i < parts.len()
        invariant
            1 <= i <= parts@.len(),
            acc@ == join(views(parts@.take(i as int)), sep@),
        decreases parts@.len() - i,
    {
        let a = concat_str(acc.as_str(), sep);
        acc = concat_str(a.as_str(), parts[i].as_str());
        proof {
            assert(views(parts@.take(i + 1)).drop_last() =~= views(parts@.take(i as int)));
            assert(views(parts@.take(i + 1)).last() == parts@[i as int]@);
        }
        i = i + 1;
    }
    assert(parts@.take(parts@.len() as int) =~= parts@);
    acc
}

/// One exported bullet line; see [`item_line`].
pub fn memory_item_line(reg: &AgentRegistry, t: &Thought, s: &ScoreText) -> (r: String)
    requires
        reg.wf(),
    ensures
        r@ == item_line(*reg, *t, *s),
{
    let mut meta: Vec<String> = Vec::new();
    let label = agent_label_for(reg, t);
    meta.push(concat_str("agent ", label.as_str()));
    if t.role != ThoughtRole::Memory {
        meta.push(concat_str("role ", t.role.debug_name()));
    }
    meta.push(concat_str("importance ", s.importance.as_str()));
    if t.confidence.is_some() {
        meta.push(concat_str("confidence ", s.confidence.as_str()));
    }
    if t.tags.len() > 0 {
        let tags = join_strings(t.tags.as_slice(), ", ");
        meta.push(concat_str("tags ", tags.as_str()));
    }
    proof {
        assert(views(meta@) =~= item_metadata(*reg, *t, *s));
    }
    let joined = join_strings(meta.as_slice(), "; ");
    let idx = crate::text::u64_to_decimal(t.index);
    let a = concat_str("- [#", idx.as_str());
    let b = concat_str(a.as_str(), "] ");
    let c = concat_str(b.as_str(), t.thought_type.as_str());
    let d = concat_str(c.as_str(), ": ");
    let e = concat_str(d.as_str(), t.content.as_str());
    let f = concat_str(e.as_str(), " (");
    let g = concat_str(f.as_str(), joined.as_str());
    concat_str(g.as_str(), ")\n")
}

fn section_types(k: usize) -> (r: (&'static str, Vec<ThoughtType>))
    requires
        k < 6,
    ensures
        r.0@ == memory_section(k as int).0,
        r.1@ == memory_section(k as int).1,
{
    if k == 0 {
        ("Identity", vec![ThoughtType::PreferenceUpdate, ThoughtType::UserTrait, ThoughtType::RelationshipUpdate])
    } else if k == 1 {
        (
            "Knowledge",
            vec![
                ThoughtType::Finding,
                ThoughtType::Insight,
                ThoughtType::FactLearned,
                ThoughtType::PatternDetected,
                ThoughtType::Hypothesis,
                ThoughtType::Surprise,
            ],
        )
    } else if k == 2 {
        (
            "Constraints And Decisions",
            vec![ThoughtType::Constraint, ThoughtType::Plan, ThoughtType::Subgoal, ThoughtType::Decision, ThoughtType::StrategyShift],
        )
    } else if k == 3 {
        (
            "Corrections",
            vec![
                ThoughtType::Mistake,
                ThoughtType::Correction,
                ThoughtType::LessonLearned,
                ThoughtType::AssumptionInvalidated,
                ThoughtType::Reframe,
            ],
        )
    } else if k == 4 {
        ("Open Threads", vec![ThoughtType::Wonder, ThoughtType::Question, ThoughtType::Idea, ThoughtType::Experiment])
    } else {
        (
            "Execution State",
            vec![
                ThoughtType::ActionTaken,
                ThoughtType::TaskComplete,
                ThoughtType::Checkpoint,
                ThoughtType::StateSnapshot,
                ThoughtType::Handoff,
                ThoughtType::Summary,
            ],
        )
    }
}

fn contains_type(types: &[ThoughtType], t: ThoughtType) -> (r: bool)
    ensures
        r == types@.contains(t),
{
    let mut i: usize = 0;
    while i < types.len()
        invariant
            i <= types@.len(),
            forall|j: int| 0 <= j < i ==> types@[j] != t,
        decreases types@.len() - i,
    {
        if types[i] == t {
            return true;
        }
        i = i + 1;
    }
    false
}

/// Appends one section of the export, or nothing when it has no bullets.
pub fn append_memory_section(
    markdown: &mut String,
    reg: &AgentRegistry,
    thoughts: &[Thought],
    scores: &[ScoreText],
    title: &str,
    ps: &[usize],
    types: &[ThoughtType],
)
    requires
        reg.wf(),
        scores@.len() == thoughts@.len(),
        forall|i: int| 0 <= i < ps@.len() ==> #[trigger] ps@[i] < thoughts@.len(),
    ensures
        final(markdown)@ == old(markdown)@ + section(*reg, thoughts@, scores@, title@, types@, ps@),
{
    let mut body = String::new();
    let mut any = false;
    let mut i: usize = 0;
    while i < ps.len()
        invariant
            reg.wf(),
            scores@.len() == thoughts@.len(),
            forall|j: int| 0 <= j < ps@.len() ==> #[trigger] ps@[j] < thoughts@.len(),
            i <= ps@.len(),
            body@ == section_body(*reg, thoughts@, scores@, types@, ps@.take(i as int)),
            any == section_has_items(thoughts@, types@, ps@.take(i as int)),
        decreases ps@.len() - i,
    {
        let p = ps[i];
        proof {
            assert(ps@.take(i + 1).drop_last() =~= ps@.take(i as int));
            assert(ps@.take(i + 1).last() == p);
        }
        if contains_type(types, thoughts[p].thought_type) {
            let line = memory_item_line(reg, &thoughts[p], &scores[p]);
            body = concat_str(body.as_str(), line.as_str());
            any = true;
            proof {
                assert(ps@.take(i + 1)[i as int] == p);
            }
        }
        proof {
            if !types@.contains(thoughts@[p as int].thought_type) {
                if section_has_items(thoughts@, types@, ps@.take(i + 1)) {
                    let k = choose|k: int| 0 <= k < ps@.take(i + 1).len() && types@.contains(thoughts@[#[trigger] ps@.take(i + 1)[k] as int].thought_type);
                    assert(k < i);
                    assert(ps@.take(i as int)[k] == ps@.take(i + 1)[k]);
                }
                if section_has_items(thoughts@, types@, ps@.take(i as int)) {
                    let k = choose|k: int| 0 <= k < ps@.take(i as int).len() && types@.contains(thoughts@[#[trigger] ps@.take(i as int)[k] as int].thought_type);
                    assert(ps@.take(i as int)[k] == ps@.take(i + 1)[k]);
                }
            } else {
                if section_has_items(thoughts@, types@, ps@.take(i as int)) {
                    let k = choose|k: int| 0 <= k < ps@.take(i as int).len() && types@.contains(thoughts@[#[trigger] ps@.take(i as int)[k] as int].thought_type);
                    assert(ps@.take(i as int)[k] == ps@.take(i + 1)[k]);
                }
            }
        }
        i = i + 1;
    }
    assert(ps@.take(ps@.len() as int) =~= ps@);
    if any {
        let a = concat_str("## ", title);
        let b = concat_str(a.as_str(), "\n\n");
        let c = concat_str(b.as_str(), body.as_str());
        let d = concat_str(c.as_str(), "\n");
        let m = concat_str(markdown.as_str(), d.as_str());
        *markdown = m;
    } else {
        assert(old(markdown)@ + Seq::<char>::empty() =~= old(markdown)@);
    }
}

/// The positions of `ps` that do not hold a dream.
pub open spec fn without_dreams(thoughts: Seq<Thought>, ps: Seq<usize>) -> Seq<usize>
    decreases ps.len(),
{
    if ps.len() == 0 {
        Seq::empty()
    } else {
        let prev = without_dreams(thoughts, ps.drop_last());
        if thoughts[ps.last() as int].role == ThoughtRole::Dream {
            prev
        } else {
            prev.push(ps.last())
        }
    }
}

/// Every position of a chain of `n` thoughts, in order.
pub open spec fn all_positions(n: nat) -> Seq<usize> {
    Seq::new(n, |p: int| p as usize)
}

impl MentisDb {
    /// Renders the full chain, or what a query returns of it, as MEMORY.md:
    /// dreams are left out whatever the query says, and the thoughts are grouped
    /// into sections by type. `scores` holds the rendered scores of
    /// every thought, by position; `location` names the storage.
    pub fn to_memory_markdown(&self, query: Option<&ThoughtQuery>, location: &str, scores: &[ScoreText]) -> (r: String)
        requires
            self.wf(),
            scores@.len() == self.spec_thoughts().len(),
        ensures
            query is None ==> r@ == memory_markdown(
                self.spec_agents(),
                self.spec_thoughts(),
                scores@,
                without_dreams(self.spec_thoughts(), all_positions(self.spec_thoughts().len())),
                location@,
            ),
            query matches Some(q) ==> exists|ps: Seq<usize>|
                query_result(self.spec_thoughts(), self.spec_agents(), *q, ps) && r@ == #[trigger] memory_markdown(
                    self.spec_agents(),
                    self.spec_thoughts(),
                    scores@,
                    without_dreams(self.spec_thoughts(), ps),
                    location@,
                ),
    {
        proof {
            self.lemma_fields();
        }
        let ghost th = self.spec_thoughts();
        let n = self.thoughts.len();
        let selected: Vec<usize> = match query {
            Some(q) => self.query_positions(q),
            None => {
                let mut all: Vec<usize> = Vec::new();
                let mut i: usize = 0;
                while i < n
                    invariant
                        n == th.len(),
                        i <= n,
                        all@ == all_positions(i as nat),
                    decreases n - i,
                {
                    all.push(i);
                    i = i + 1;
                    assert(all@ =~= all_positions(i as nat));
                }
                all
            },
        };
        let mut ps: Vec<usize> = Vec::new();
        let mut i: usize = 0;
        while i < selected.len()
            invariant
                self.thoughts@ == th,
                n == th.len(),
                forall|j: int| 0 <= j < selected@.len() ==> #[trigger] selected@[j] < n,
                i <= selected@.len(),
                ps@ == without_dreams(th, selected@.take(i as int)),
                forall|j: int| 0 <= j < ps@.len() ==> #[trigger] ps@[j] < n,
            decreases selected@.len() - i,
        {
            let p = selected[i];
            proof {
                assert(selected@.take(i + 1).drop_last() =~= selected@.take(i as int));
                assert(selected@.take(i + 1).last() == p);
            }
            if self.thoughts[p].role != ThoughtRole::Dream {
                ps.push(p);
            }
            i = i + 1;
        }
        assert(selected@.take(selected@.len() as int) =~= selected@);
        let count = crate::text::u64_to_decimal(ps.len() as u64);
        let mut markdown = String::from_str("# MEMORY\n\n");
        let a = concat_str("Generated from `", location);
        let b = concat_str(a.as_str(), "` with ");
        let c = concat_str(b.as_str(), count.as_str());
        let d = concat_str(c.as_str(), " thought(s).\n\n");
        markdown = concat_str(markdown.as_str(), d.as_str());
        let ghost head = markdown@;
        let mut k: usize = 0;
        while k < 6
            invariant
                self.wf(),
                self.thoughts@ == th,
                self.agent_registry == self.spec_agents(),
                self.agent_registry.wf(),
                scores@.len() == th.len(),
                forall|j: int| 0 <= j < ps@.len() ==> #[trigger] ps@[j] < th.len(),
                k <= 6,
                markdown@ == head + sections_upto(self.spec_agents(), th, scores@, ps@, k as int),
            decreases 6 - k,
        {
            let (title, types) = section_types(k);
            append_memory_section(&mut markdown, &self.agent_registry, self.thoughts.as_slice(), scores, title, ps.as_slice(), types.as_slice());
            k = k + 1;
        }
        proof {
            let reg = self.spec_agents();
            assert(markdown@ =~= memory_markdown(reg, th, scores@, ps@, location@));
            if let Some(q) = query {
                assert(query_result(th, reg, *q, selected@));
                assert(markdown@ == memory_markdown(reg, th, scores@, without_dreams(th, selected@), location@));
            }
        }
        markdown
    }
}


/// The agent an imported line is appended for and the input it becomes:
/// the line's agent or `default_agent_id`; its type, content, role and
/// tags; the importance read from its text (one half when absent or
/// unreadable) and its confidence when one was read, each clamped into
/// `[0, 1]` as the input's builders do.
pub fn import_input(
    line: &MarkdownThoughtLine,
    default_agent_id: &str,
    importance: Score,
    confidence: Option<Score>,
) -> (r: (String, ThoughtInput))
    ensures
        r.0@ == match line.metadata.agent_id {
            Some(a) => a@,
            None => default_agent_id@,
        },
        r.1.thought_type == line.thought_type,
        r.1.content@ == line.content@,
        r.1.role == line.metadata.role,
        r.1.importance == if is_finite_score(importance) {
            clamp_unit(importance)
        } else {
            Score { rank: Some(HALF_RANK) }
        },
        views(r.1.tags@) == views(line.metadata.tags@),
        r.1.confidence == match confidence {
            Some(c) => if is_finite_score(c) {
                Some(clamp_unit(c))
            } else {
                None
            },
            None => None,
        },
        r.1.refs@.len() == 0,
        r.1.relations@.len() == 0,
        r.1.concepts@.len() == 0,
{
    let agent = match &line.metadata.agent_id {
        Some(a) => a.clone(),
        None => String::from_str(default_agent_id),
    };
    let tags = clone_strings(&line.metadata.tags);
    assert(views(tags@) =~= views(line.metadata.tags@));
    let mut input = ThoughtInput::new(line.thought_type, line.content.clone())
        .with_role(line.metadata.role)
        .with_importance(importance)
        .with_tags(tags);
    match confidence {
        Some(c) => {
            input = input.with_confidence(c);
        },
        None => {},
    }
    (agent, input)
}

} // verus!
