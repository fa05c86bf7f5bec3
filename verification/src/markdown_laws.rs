//! What the MEMORY.md export writes for a thought, the MEMORY.md reader
//! reads back: its type, its content and its metadata.
use vstd::prelude::*;
use crate::kinds::{lemma_role_name_roundtrip, lemma_thought_type_name_roundtrip, ThoughtRole, ThoughtType};
use crate::markdown::{
    memory_markdown, memory_section, section, section_body, section_has_items, sections_upto,
    agent_label, apply_token, default_metadata, item_line, item_metadata, join, metadata_of, metadata_of_tokens,
    metadata_start, metadata_start_from, parsed_line, split_on, starts_with, trimmed_nonempty, MetadataModel, ScoreText,
};
use crate::model::{views, Thought};
use crate::registry::AgentRegistry;
use crate::text::{
    contains_sub, lemma_contains_extend, lemma_contains_tail, lemma_contains_trans,
    char_is_whitespace, decimal, first_occurrence, first_occurrence_from, lemma_decimal_digits, lemma_trim_of_alnum,
    lemma_trim_plain, lemma_trimmed_ends, occurs_at, trim, trim_end, trim_start,
};

verus! {

/// Past a search start with no occurrence, nothing occurs.
proof fn lemma_none_from(s: Seq<char>, p: Seq<char>, k: int, i: int)
    requires
        0 <= k <= i,
        first_occurrence_from(s, p, k) is None,
    ensures
        !occurs_at(s, p, i),
    decreases i - k,
{
    if k + p.len() <= s.len() && k < i {
        lemma_none_from(s, p, k + 1, i);
    }
}

/// A pattern that occurs nowhere is not found.
proof fn lemma_nowhere_none(s: Seq<char>, p: Seq<char>, k: int)
    requires
        0 <= k,
        forall|i: int| !occurs_at(s, p, i),
    ensures
        first_occurrence_from(s, p, k) is None,
    decreases s.len() + 1 - k,
{
    if k + p.len() <= s.len() {
        assert(!occurs_at(s, p, k));
        lemma_nowhere_none(s, p, k + 1);
    }
}

/// The search from `k` finds `i` when `p` occurs at `i` and nowhere from
/// `k` up to `i`.
proof fn lemma_found_at(s: Seq<char>, p: Seq<char>, k: int, i: int)
    requires
        0 <= k <= i,
        occurs_at(s, p, i),
        forall|j: int| k <= j < i ==> !occurs_at(s, p, j),
    ensures
        first_occurrence_from(s, p, k) == Some(i),
    decreases i - k,
{
    if k < i {
        assert(!occurs_at(s, p, k));
        lemma_found_at(s, p, k + 1, i);
    }
}

/// A two-character separator whose characters differ, placed after a text
/// that does not hold it, is found right after that text.
proof fn lemma_found_after(x: Seq<char>, sep: Seq<char>, y: Seq<char>)
    requires
        sep.len() == 2,
        sep[0] != sep[1],
        first_occurrence(x, sep) is None,
    ensures
        first_occurrence(x + sep + y, sep) == Some(x.len() as int),
{
    let s = x + sep + y;
    assert(s.subrange(x.len() as int, x.len() + 2int) =~= sep);
    assert forall|j: int| 0 <= j < x.len() implies !occurs_at(s, sep, j) by {
        if j + 2 <= x.len() {
            lemma_none_from(x, sep, 0, j);
            assert(s.subrange(j, j + 2) =~= x.subrange(j, j + 2));
        } else {
            assert(s[j + 1] == sep[0]);
            if occurs_at(s, sep, j) {
                assert(s.subrange(j, j + 2)[1] == sep[1]);
            }
        }
    }
    lemma_found_at(s, sep, 0, x.len() as int);
}

/// Joining puts the first part, the separator and the rest joined.
proof fn lemma_join_front(parts: Seq<Seq<char>>, sep: Seq<char>)
    requires
        parts.len() >= 2,
    ensures
        join(parts, sep) == parts[0] + sep + join(parts.drop_first(), sep),
    decreases parts.len(),
{
    let init = parts.drop_last();
    let tail = parts.drop_first();
    assert(join(parts, sep) == join(init, sep) + sep + parts.last());
    if parts.len() > 2 {
        lemma_join_front(init, sep);
        assert(init.drop_first() =~= tail.drop_last());
        assert(tail.last() == parts.last());
        assert(join(tail, sep) == join(tail.drop_last(), sep) + sep + tail.last());
        assert(init[0] == parts[0]);
        assert(parts[0] + sep + join(tail.drop_last(), sep) + sep + parts.last()
            =~= parts[0] + sep + (join(tail.drop_last(), sep) + sep + parts.last()));
    } else {
        assert(join(init, sep) == init[0]);
        assert(join(tail, sep) == tail[0]);
    }
}

/// Splitting parts joined with a two-character separator whose characters
/// differ gives the parts back, when none of them holds the separator.
pub proof fn lemma_split_join(parts: Seq<Seq<char>>, sep: Seq<char>)
    requires
        parts.len() >= 1,
        sep.len() == 2,
        sep[0] != sep[1],
        forall|k: int| 0 <= k < parts.len() ==> first_occurrence(#[trigger] parts[k], sep) is None,
    ensures
        split_on(join(parts, sep), sep) == parts,
    decreases parts.len(),
{
    if parts.len() == 1 {
        assert(first_occurrence(parts[0], sep) is None);
        assert(seq![parts[0]] =~= parts);
    } else {
        let rest = parts.drop_first();
        lemma_join_front(parts, sep);
        assert(first_occurrence(parts[0], sep) is None);
        lemma_found_after(parts[0], sep, join(rest, sep));
        let s = parts[0] + sep + join(rest, sep);
        assert(s.take(parts[0].len() as int) =~= parts[0]);
        assert(s.skip(parts[0].len() + sep.len() as int) =~= join(rest, sep));
        assert forall|k: int| 0 <= k < rest.len() implies first_occurrence(#[trigger] rest[k], sep) is None by {
            assert(rest[k] == parts[k + 1]);
        }
        lemma_split_join(rest, sep);
        assert(seq![parts[0]] + rest =~= parts);
    }
}

/// Trimming the pieces and dropping the empty ones keeps pieces that are
/// already trimmed and not empty.
pub proof fn lemma_trimmed_nonempty_keeps(parts: Seq<Seq<char>>)
    requires
        forall|k: int| 0 <= k < parts.len() ==> (#[trigger] parts[k]).len() > 0 && trim(parts[k]) == parts[k],
    ensures
        trimmed_nonempty(parts) == parts,
    decreases parts.len(),
{
    if parts.len() > 0 {
        let prev = parts.drop_last();
        assert forall|k: int| 0 <= k < prev.len() implies (#[trigger] prev[k]).len() > 0 && trim(prev[k]) == prev[k] by {
            assert(prev[k] == parts[k]);
        }
        lemma_trimmed_nonempty_keeps(prev);
        assert(parts.last() == parts[parts.len() - 1]);
        assert(prev.push(parts.last()) =~= parts);
    }
}

/// The last ` (agent ` at or before `k` is at `i` when it occurs there and
/// nowhere after `i` up to `k`.
proof fn lemma_metadata_start_at(s: Seq<char>, i: int, k: int)
    requires
        0 <= i <= k,
        occurs_at(s, " (agent "@, i),
        forall|j: int| i < j <= k ==> !occurs_at(s, " (agent "@, j),
    ensures
        metadata_start_from(s, k) == Some(i),
    decreases k - i,
{
    if i < k {
        assert(!occurs_at(s, " (agent "@, k));
        lemma_metadata_start_at(s, i, k - 1);
    }
}

/// A text whose first character differs from that of `p` does not start
/// with `p`.
proof fn lemma_not_starts(s: Seq<char>, p: Seq<char>)
    requires
        s.len() > 0,
        p.len() > 0,
        s[0] != p[0],
    ensures
        !starts_with(s, p),
{
    if starts_with(s, p) {
        assert(s.take(p.len() as int)[0] == p[0]);
    }
}

/// A keyword followed by a non-empty trimmed value is its own trimmed form,
/// starts with the keyword, and has the value after it.
proof fn lemma_keyword_token(kw: Seq<char>, x: Seq<char>)
    requires
        kw.len() > 0,
        !crate::text::char_is_whitespace(kw[0]),
        x.len() > 0,
        trim(x) == x,
    ensures
        trim(kw + x) == kw + x,
        starts_with(kw + x, kw),
        (kw + x).skip(kw.len() as int) == x,
        (kw + x)[0] == kw[0],
{
    let tok = kw + x;
    lemma_trimmed_ends(x);
    assert(tok.last() == x.last());
    lemma_trim_plain(tok);
    assert(tok.take(kw.len() as int) =~= kw);
    assert(tok.skip(kw.len() as int) =~= x);
}

/// An `agent` token sets the agent.
proof fn lemma_apply_agent(m: MetadataModel, label: Seq<char>)
    requires
        label.len() > 0,
        trim(label) == label,
    ensures
        apply_token(m, "agent "@ + label) == (Some(label), m.1, m.2, m.3, m.4),
{
    reveal_strlit("agent ");
    lemma_keyword_token("agent "@, label);
}

/// A `role` token with the name of a role sets that role.
proof fn lemma_apply_role(m: MetadataModel, r: ThoughtRole)
    ensures
        apply_token(m, "role "@ + r.name()) == (m.0, r, m.2, m.3, m.4),
{
    reveal_strlit("agent ");
    reveal_strlit("role ");
    lemma_role_name_roundtrip(r);
    lemma_trim_of_alnum(r.name());
    lemma_keyword_token("role "@, r.name());
    lemma_not_starts("role "@ + r.name(), "agent "@);
}

/// An `importance` token sets the importance text.
proof fn lemma_apply_importance(m: MetadataModel, x: Seq<char>)
    requires
        x.len() > 0,
        trim(x) == x,
    ensures
        apply_token(m, "importance "@ + x) == (m.0, m.1, Some(x), m.3, m.4),
{
    reveal_strlit("agent ");
    reveal_strlit("role ");
    reveal_strlit("importance ");
    lemma_keyword_token("importance "@, x);
    lemma_not_starts("importance "@ + x, "agent "@);
    lemma_not_starts("importance "@ + x, "role "@);
}

/// A `confidence` token sets the confidence text.
proof fn lemma_apply_confidence(m: MetadataModel, x: Seq<char>)
    requires
        x.len() > 0,
        trim(x) == x,
    ensures
        apply_token(m, "confidence "@ + x) == (m.0, m.1, m.2, Some(x), m.4),
{
    reveal_strlit("agent ");
    reveal_strlit("role ");
    reveal_strlit("importance ");
    reveal_strlit("confidence ");
    lemma_keyword_token("confidence "@, x);
    lemma_not_starts("confidence "@ + x, "agent "@);
    lemma_not_starts("confidence "@ + x, "role "@);
    lemma_not_starts("confidence "@ + x, "importance "@);
}

/// A `tags` token with tags joined by `, ` sets those tags, when each is
/// non-empty, trimmed and free of `, `.
proof fn lemma_apply_tags(m: MetadataModel, tags: Seq<Seq<char>>)
    requires
        tags.len() > 0,
        forall|k: int| 0 <= k < tags.len() ==> (#[trigger] tags[k]).len() > 0 && trim(tags[k]) == tags[k]
            && first_occurrence(tags[k], ", "@) is None,
    ensures
        apply_token(m, "tags "@ + join(tags, ", "@)) == (m.0, m.1, m.2, m.3, tags),
{
    reveal_strlit("agent ");
    reveal_strlit("role ");
    reveal_strlit("importance ");
    reveal_strlit("confidence ");
    reveal_strlit("tags ");
    reveal_strlit(", ");
    let j = join(tags, ", "@);
    lemma_split_join(tags, ", "@);
    lemma_trimmed_nonempty_keeps(tags);
    lemma_join_ends(tags, ", "@);
    lemma_trim_plain(j);
    lemma_keyword_token("tags "@, j);
    lemma_not_starts("tags "@ + j, "agent "@);
    lemma_not_starts("tags "@ + j, "role "@);
    lemma_not_starts("tags "@ + j, "importance "@);
    lemma_not_starts("tags "@ + j, "confidence "@);
}

/// Parts that are non-empty and trimmed join into a text that begins with
/// the first part's first character and ends with the last part's last.
proof fn lemma_join_ends(parts: Seq<Seq<char>>, sep: Seq<char>)
    requires
        parts.len() > 0,
        forall|k: int| 0 <= k < parts.len() ==> (#[trigger] parts[k]).len() > 0 && trim(parts[k]) == parts[k],
    ensures
        join(parts, sep).len() > 0,
        join(parts, sep)[0] == parts[0][0],
        join(parts, sep).last() == parts.last().last(),
        !crate::text::char_is_whitespace(join(parts, sep)[0]),
        !crate::text::char_is_whitespace(join(parts, sep).last()),
    decreases parts.len(),
{
    assert(parts[0].len() > 0 && trim(parts[0]) == parts[0]);
    assert(parts[parts.len() - 1].len() > 0 && trim(parts[parts.len() - 1]) == parts[parts.len() - 1]);
    lemma_trimmed_ends(parts[0]);
    lemma_trimmed_ends(parts.last());
    if parts.len() > 1 {
        let init = parts.drop_last();
        assert forall|k: int| 0 <= k < init.len() implies (#[trigger] init[k]).len() > 0 && trim(init[k]) == init[k] by {
            assert(init[k] == parts[k]);
        }
        lemma_join_ends(init, sep);
        assert(init[0] == parts[0]);
    }
}

/// A non-empty text without surrounding whitespace.
pub open spec fn trimmed_text(s: Seq<char>) -> bool {
    s.len() > 0 && trim(s) == s
}

/// What the reader takes from the bullet of `t`: its type, its content, the
/// agent label, its role, the importance text, the confidence text when `t`
/// has a confidence, and its tags.
pub open spec fn exported_reading(reg: AgentRegistry, t: Thought, s: ScoreText) -> (ThoughtType, Seq<char>, MetadataModel) {
    (
        t.thought_type,
        t.content@,
        (
            Some(agent_label(reg, t)),
            t.role,
            Some(s.importance@),
            if t.confidence is Some {
                Some(s.confidence@)
            } else {
                None
            },
            views(t.tags@),
        ),
    )
}

/// The fields the export writes into a metadata block come back as they
/// were written, when each is non-empty and trimmed and no tag holds `, `.
proof fn lemma_item_tokens(reg: AgentRegistry, t: Thought, s: ScoreText)
    requires
        trimmed_text(agent_label(reg, t)),
        trimmed_text(s.importance@),
        t.confidence is Some ==> trimmed_text(s.confidence@),
        forall|k: int| 0 <= k < views(t.tags@).len() ==> trimmed_text(#[trigger] views(t.tags@)[k])
            && first_occurrence(views(t.tags@)[k], ", "@) is None,
    ensures
        metadata_of_tokens(item_metadata(reg, t, s)) == exported_reading(reg, t, s).2,
{
    let label = agent_label(reg, t);
    let tags = views(t.tags@);
    let s1 = seq!["agent "@ + label];
    let s2 = if t.role != ThoughtRole::Memory {
        s1.push("role "@ + t.role.name())
    } else {
        s1
    };
    let s3 = s2.push("importance "@ + s.importance@);
    let s4 = if t.confidence is Some {
        s3.push("confidence "@ + s.confidence@)
    } else {
        s3
    };
    let s5 = if t.tags@.len() > 0 {
        s4.push("tags "@ + join(tags, ", "@))
    } else {
        s4
    };
    assert(item_metadata(reg, t, s) =~= s5);
    let e: Seq<Seq<char>> = Seq::empty();
    assert(s1.drop_last() =~= e);
    assert(metadata_of_tokens(e) == default_metadata());
    assert(s1.last() == "agent "@ + label);
    assert(metadata_of_tokens(s1) == apply_token(default_metadata(), "agent "@ + label));
    lemma_apply_agent(default_metadata(), label);
    assert(metadata_of_tokens(s1) == (Some(label), ThoughtRole::Memory, None::<Seq<char>>, None::<Seq<char>>, e));
    if t.role != ThoughtRole::Memory {
        assert(s2.drop_last() =~= s1);
        lemma_apply_role(metadata_of_tokens(s1), t.role);
    }
    assert(metadata_of_tokens(s2) == (Some(label), t.role, None::<Seq<char>>, None::<Seq<char>>, e));
    assert(s3.drop_last() =~= s2);
    lemma_apply_importance(metadata_of_tokens(s2), s.importance@);
    assert(metadata_of_tokens(s3) == (Some(label), t.role, Some(s.importance@), None::<Seq<char>>, e));
    if t.confidence is Some {
        assert(s4.drop_last() =~= s3);
        lemma_apply_confidence(metadata_of_tokens(s3), s.confidence@);
    }
    let conf = if t.confidence is Some {
        Some(s.confidence@)
    } else {
        None
    };
    assert(metadata_of_tokens(s4) == (Some(label), t.role, Some(s.importance@), conf, e));
    if t.tags@.len() > 0 {
        assert(s5.drop_last() =~= s4);
        lemma_apply_tags(metadata_of_tokens(s4), tags);
    } else {
        assert(tags =~= e);
    }
}

/// The metadata block of an exported bullet starts with its agent entry.
proof fn lemma_block_starts_with_agent(items: Seq<Seq<char>>, label: Seq<char>)
    requires
        items.len() > 0,
        items[0] == "agent "@ + label,
        label.len() > 0,
    ensures
        join(items, "; "@).len() >= 7,
        join(items, "; "@).take(6) == "agent "@,
{
    reveal_strlit("agent ");
    let m = join(items, "; "@);
    if items.len() >= 2 {
        lemma_join_front(items, "; "@);
        assert(m.take(6) =~= items[0].take(6));
    } else {
        assert(m == items[0]);
    }
    assert(items[0].take(6) =~= "agent "@);
}

/// The metadata block of an exported bullet, without its brackets.
spec fn block(reg: AgentRegistry, t: Thought, s: ScoreText) -> Seq<char> {
    join(item_metadata(reg, t, s), "; "@)
}

/// What follows `TypeName: ` in an exported bullet.
spec fn after_type(reg: AgentRegistry, t: Thought, s: ScoreText) -> Seq<char> {
    t.content@ + " ("@ + block(reg, t, s) + ")"@
}

/// What follows `- [` in an exported bullet, newline left out.
spec fn after_open(reg: AgentRegistry, t: Thought, s: ScoreText) -> Seq<char> {
    "#"@ + decimal(t.index as nat) + "] "@ + t.thought_type.name() + ": "@ + after_type(reg, t, s)
}

/// Trimming an exported bullet drops its newline and nothing else.
proof fn lemma_line_trimmed(reg: AgentRegistry, t: Thought, s: ScoreText)
    ensures
        trim(item_line(reg, t, s)) == "- ["@ + after_open(reg, t, s),
        starts_with(trim(item_line(reg, t, s)), "- ["@),
        trim(item_line(reg, t, s)).skip(3) == after_open(reg, t, s),
{
    reveal_strlit("- [#");
    reveal_strlit("- [");
    reveal_strlit("#");
    reveal_strlit(")");
    reveal_strlit(")\n");
    reveal_strlit("\n");
    let body = "- ["@ + after_open(reg, t, s);
    assert("- [#"@ =~= "- ["@ + "#"@);
    assert(")\n"@ =~= ")"@ + "\n"@);
    assert(item_line(reg, t, s) =~= body + "\n"@);
    assert((body + "\n"@).drop_last() =~= body);
    assert(body.last() == ')');
    assert(trim_end(body) == body);
    assert(trim_start(body + "\n"@) == body + "\n"@);
    assert(body.take(3) =~= "- ["@);
    assert(body.skip(3) =~= after_open(reg, t, s));
}

/// The index in brackets ends at the first `]`, and the type name follows
/// after one space.
proof fn lemma_index_skipped(reg: AgentRegistry, t: Thought, s: ScoreText)
    ensures
        first_occurrence(after_open(reg, t, s), "]"@) == Some(1 + decimal(t.index as nat).len() as int),
        trim_start(after_open(reg, t, s).skip(2 + decimal(t.index as nat).len() as int)) == t.thought_type.name() + ": "@
            + after_type(reg, t, s),
{
    reveal_strlit("] ");
    reveal_strlit("]");
    reveal_strlit(": ");
    reveal_strlit("#");
    reveal_strlit(" ");
    let n = decimal(t.index as nat);
    let name = t.thought_type.name();
    let after = name + ": "@ + after_type(reg, t, s);
    let rest = after_open(reg, t, s);
    lemma_decimal_digits(t.index as nat);
    lemma_thought_type_name_roundtrip(t.thought_type);
    let b: int = 1 + n.len() as int;
    assert(rest =~= "#"@ + n + "]"@ + " "@ + after);
    assert forall|j: int| 0 <= j < b implies !occurs_at(rest, "]"@, j) by {
        if occurs_at(rest, "]"@, j) {
            assert(rest.subrange(j, j + 1)[0] == rest[j]);
            if j > 0 {
                assert(rest[j] == n[j - 1]);
            }
        }
    }
    assert(rest.subrange(b, b + 1) =~= "]"@);
    lemma_found_at(rest, "]"@, 0, b);
    assert(rest.skip(b + 1) =~= " "@ + after);
    assert((" "@ + after).drop_first() =~= after);
    assert(!char_is_whitespace(after[0])) by {
        if name.len() > 0 {
            assert(after[0] == name[0]);
        }
    }
    assert(trim_start(after) == after);
}

/// The type name ends at the first `: `.
proof fn lemma_type_name_found(reg: AgentRegistry, t: Thought, s: ScoreText)
    ensures
        first_occurrence(t.thought_type.name() + ": "@ + after_type(reg, t, s), ": "@) == Some(
            t.thought_type.name().len() as int,
        ),
        (t.thought_type.name() + ": "@ + after_type(reg, t, s)).take(t.thought_type.name().len() as int)
            == t.thought_type.name(),
        (t.thought_type.name() + ": "@ + after_type(reg, t, s)).skip(t.thought_type.name().len() + 2int)
            == after_type(reg, t, s),
{
    reveal_strlit(": ");
    let name = t.thought_type.name();
    let after = name + ": "@ + after_type(reg, t, s);
    lemma_thought_type_name_roundtrip(t.thought_type);
    assert forall|j: int| 0 <= j < name.len() implies !occurs_at(after, ": "@, j) by {
        if occurs_at(after, ": "@, j) {
            assert(after.subrange(j, j + 2)[0] == after[j]);
            assert(after[j] == name[j]);
        }
    }
    assert(after.subrange(name.len() as int, name.len() + 2int) =~= ": "@);
    lemma_found_at(after, ": "@, 0, name.len() as int);
    assert(after.take(name.len() as int) =~= name);
    assert(after.skip(name.len() + 2int) =~= after_type(reg, t, s));
}

/// The metadata block begins at the last ` (agent `, right after the
/// content.
proof fn lemma_block_found(reg: AgentRegistry, t: Thought, s: ScoreText)
    requires
        trimmed_text(agent_label(reg, t)),
        first_occurrence(block(reg, t, s), " (agent "@) is None,
    ensures
        metadata_start(after_type(reg, t, s)) == Some(t.content@.len() as int),
        after_type(reg, t, s).take(t.content@.len() as int) == t.content@,
        after_type(reg, t, s).subrange(t.content@.len() + 2int, after_type(reg, t, s).len() - 1) == block(reg, t, s),
{
    reveal_strlit(" (");
    reveal_strlit(")");
    reveal_strlit(" (agent ");
    reveal_strlit("agent ");
    let c = t.content@;
    let meta = block(reg, t, s);
    let cm = after_type(reg, t, s);
    let items = item_metadata(reg, t, s);
    assert(items[0] == "agent "@ + agent_label(reg, t));
    lemma_block_starts_with_agent(items, agent_label(reg, t));
    assert(cm.subrange(c.len() as int, c.len() + 8int) =~= " ("@ + meta.take(6));
    assert(" ("@ + "agent "@ =~= " (agent "@);
    assert forall|j: int| c.len() < j <= cm.len() - 1 implies !occurs_at(cm, " (agent "@, j) by {
        if occurs_at(cm, " (agent "@, j) {
            let w = cm.subrange(j, j + 8);
            if j == c.len() + 1 {
                assert(w[0] == cm[j]);
            } else if j + 8 <= c.len() + 2 + meta.len() {
                assert(w =~= meta.subrange(j - c.len() - 2, j - c.len() - 2 + 8));
                lemma_none_from(meta, " (agent "@, 0, j - c.len() - 2);
            } else {
                assert(w[7] == cm.last());
            }
        }
    }
    lemma_metadata_start_at(cm, c.len() as int, cm.len() - 1);
    assert(cm.take(c.len() as int) =~= c);
    assert(cm.subrange(c.len() + 2int, cm.len() - 1) =~= meta);
}

/// Reading back an exported MEMORY.md bullet gives the thought's type, its
/// content and the metadata written for it: the agent label, the role, the
/// importance and confidence texts and the tags. This holds when the content,
/// the agent label and the score texts are non-empty and trimmed, each tag is
/// non-empty, trimmed and free of `, `, no metadata entry holds `; ` and the
/// metadata block holds no ` (agent `.
pub proof fn lemma_memory_line_roundtrip(reg: AgentRegistry, t: Thought, s: ScoreText)
    requires
        trimmed_text(t.content@),
        trimmed_text(agent_label(reg, t)),
        trimmed_text(s.importance@),
        t.confidence is Some ==> trimmed_text(s.confidence@),
        forall|k: int| 0 <= k < views(t.tags@).len() ==> trimmed_text(#[trigger] views(t.tags@)[k])
            && first_occurrence(views(t.tags@)[k], ", "@) is None,
        forall|k: int| 0 <= k < item_metadata(reg, t, s).len() ==> first_occurrence(
            #[trigger] item_metadata(reg, t, s)[k],
            "; "@,
        ) is None,
        first_occurrence(join(item_metadata(reg, t, s), "; "@), " (agent "@) is None,
    ensures
        parsed_line(item_line(reg, t, s)) == Some(exported_reading(reg, t, s)),
{
    reveal_strlit("; ");
    lemma_line_trimmed(reg, t, s);
    lemma_index_skipped(reg, t, s);
    lemma_type_name_found(reg, t, s);
    lemma_thought_type_name_roundtrip(t.thought_type);
    lemma_block_found(reg, t, s);
    lemma_split_join(item_metadata(reg, t, s), "; "@);
    lemma_item_tokens(reg, t, s);
    assert(metadata_of(block(reg, t, s)) == exported_reading(reg, t, s).2);
}

/// Membership in a list of three.
proof fn lemma_in3(s: Seq<ThoughtType>, a: ThoughtType, b: ThoughtType, c: ThoughtType, ty: ThoughtType)
    requires
        s == seq![a, b, c],
    ensures
        s.contains(ty) <==> (ty == a || ty == b || ty == c),
{
    if ty == a { assert(s[0] == ty); }
    if ty == b { assert(s[1] == ty); }
    if ty == c { assert(s[2] == ty); }
}

/// Membership in a list of four.
proof fn lemma_in4(s: Seq<ThoughtType>, a: ThoughtType, b: ThoughtType, c: ThoughtType, d: ThoughtType, ty: ThoughtType)
    requires
        s == seq![a, b, c, d],
    ensures
        s.contains(ty) <==> (ty == a || ty == b || ty == c || ty == d),
{
    if ty == a { assert(s[0] == ty); }
    if ty == b { assert(s[1] == ty); }
    if ty == c { assert(s[2] == ty); }
    if ty == d { assert(s[3] == ty); }
}

/// Membership in a list of five.
proof fn lemma_in5(
    s: Seq<ThoughtType>,
    a: ThoughtType,
    b: ThoughtType,
    c: ThoughtType,
    d: ThoughtType,
    e: ThoughtType,
    ty: ThoughtType,
)
    requires
        s == seq![a, b, c, d, e],
    ensures
        s.contains(ty) <==> (ty == a || ty == b || ty == c || ty == d || ty == e),
{
    if ty == a { assert(s[0] == ty); }
    if ty == b { assert(s[1] == ty); }
    if ty == c { assert(s[2] == ty); }
    if ty == d { assert(s[3] == ty); }
    if ty == e { assert(s[4] == ty); }
}

/// Membership in a list of six.
proof fn lemma_in6(
    s: Seq<ThoughtType>,
    a: ThoughtType,
    b: ThoughtType,
    c: ThoughtType,
    d: ThoughtType,
    e: ThoughtType,
    f: ThoughtType,
    ty: ThoughtType,
)
    requires
        s == seq![a, b, c, d, e, f],
    ensures
        s.contains(ty) <==> (ty == a || ty == b || ty == c || ty == d || ty == e || ty == f),
{
    if ty == a { assert(s[0] == ty); }
    if ty == b { assert(s[1] == ty); }
    if ty == c { assert(s[2] == ty); }
    if ty == d { assert(s[3] == ty); }
    if ty == e { assert(s[4] == ty); }
    if ty == f { assert(s[5] == ty); }
}

/// The export's sections split the thought types between them: every type
/// but `Goal` and `LLMExtracted` belongs to exactly one of the six
/// sections, and those two belong to none.
pub proof fn lemma_sections_partition_types(ty: ThoughtType)
    ensures
        !(ty is Goal || ty is LLMExtracted) ==> exists|k: int| 0 <= k < 6 && #[trigger] memory_section(k).1.contains(ty),
        (ty is Goal || ty is LLMExtracted) ==> forall|k: int| 0 <= k < 6 ==> !(#[trigger] memory_section(k).1.contains(ty)),
        forall|k1: int, k2: int|
            0 <= k1 < 6 && 0 <= k2 < 6 && #[trigger] memory_section(k1).1.contains(ty) && #[trigger] memory_section(k2).1.contains(ty)
                ==> k1 == k2,
{
    lemma_in3(memory_section(0).1, ThoughtType::PreferenceUpdate, ThoughtType::UserTrait, ThoughtType::RelationshipUpdate, ty);
    lemma_in6(
        memory_section(1).1,
        ThoughtType::Finding,
        ThoughtType::Insight,
        ThoughtType::FactLearned,
        ThoughtType::PatternDetected,
        ThoughtType::Hypothesis,
        ThoughtType::Surprise,
        ty,
    );
    lemma_in5(
        memory_section(2).1,
        ThoughtType::Constraint,
        ThoughtType::Plan,
        ThoughtType::Subgoal,
        ThoughtType::Decision,
        ThoughtType::StrategyShift,
        ty,
    );
    lemma_in5(
        memory_section(3).1,
        ThoughtType::Mistake,
        ThoughtType::Correction,
        ThoughtType::LessonLearned,
        ThoughtType::AssumptionInvalidated,
        ThoughtType::Reframe,
        ty,
    );
    lemma_in4(memory_section(4).1, ThoughtType::Wonder, ThoughtType::Question, ThoughtType::Idea, ThoughtType::Experiment, ty);
    lemma_in6(
        memory_section(5).1,
        ThoughtType::ActionTaken,
        ThoughtType::TaskComplete,
        ThoughtType::Checkpoint,
        ThoughtType::StateSnapshot,
        ThoughtType::Handoff,
        ThoughtType::Summary,
        ty,
    );
}

/// A section's bullets list every thought at `ps` whose type the section
/// gathers.
proof fn lemma_body_lists(
    reg: AgentRegistry,
    thoughts: Seq<Thought>,
    scores: Seq<ScoreText>,
    types: Seq<ThoughtType>,
    ps: Seq<usize>,
    i: int,
)
    requires
        0 <= i < ps.len(),
        types.contains(thoughts[ps[i] as int].thought_type),
    ensures
        contains_sub(section_body(reg, thoughts, scores, types, ps), item_line(reg, thoughts[ps[i] as int], scores[ps[i] as int])),
    decreases ps.len(),
{
    let prev = section_body(reg, thoughts, scores, types, ps.drop_last());
    let p = ps.last() as int;
    let item = item_line(reg, thoughts[ps[i] as int], scores[ps[i] as int]);
    if i == ps.len() - 1 {
        lemma_contains_tail(prev, item);
    } else {
        assert(ps.drop_last()[i] == ps[i]);
        lemma_body_lists(reg, thoughts, scores, types, ps.drop_last(), i);
        if types.contains(thoughts[p].thought_type) {
            lemma_contains_extend(prev, item_line(reg, thoughts[p], scores[p]), item);
        }
    }
}

/// The sections written so far hold every earlier section.
proof fn lemma_sections_hold(reg: AgentRegistry, thoughts: Seq<Thought>, scores: Seq<ScoreText>, ps: Seq<usize>, k: int, j: int)
    requires
        0 <= j < k,
    ensures
        contains_sub(
            sections_upto(reg, thoughts, scores, ps, k),
            section(reg, thoughts, scores, memory_section(j).0, memory_section(j).1, ps),
        ),
    decreases k,
{
    let last = section(reg, thoughts, scores, memory_section(k - 1).0, memory_section(k - 1).1, ps);
    if j == k - 1 {
        lemma_contains_tail(sections_upto(reg, thoughts, scores, ps, k - 1), last);
    } else {
        lemma_sections_hold(reg, thoughts, scores, ps, k - 1, j);
        lemma_contains_extend(
            sections_upto(reg, thoughts, scores, ps, k - 1),
            last,
            section(reg, thoughts, scores, memory_section(j).0, memory_section(j).1, ps),
        );
    }
}

/// Every exported thought appears in MEMORY.md as its own bullet, unless
/// its type is `Goal` or `LLMExtracted`, which no section gathers.
pub proof fn lemma_export_lists_every_thought(
    reg: AgentRegistry,
    thoughts: Seq<Thought>,
    scores: Seq<ScoreText>,
    ps: Seq<usize>,
    location: Seq<char>,
    i: int,
)
    requires
        0 <= i < ps.len(),
        !(thoughts[ps[i] as int].thought_type is Goal || thoughts[ps[i] as int].thought_type is LLMExtracted),
    ensures
        contains_sub(
            memory_markdown(reg, thoughts, scores, ps, location),
            item_line(reg, thoughts[ps[i] as int], scores[ps[i] as int]),
        ),
{
    let ty = thoughts[ps[i] as int].thought_type;
    let item = item_line(reg, thoughts[ps[i] as int], scores[ps[i] as int]);
    lemma_sections_partition_types(ty);
    let k = choose|k: int| 0 <= k < 6 && #[trigger] memory_section(k).1.contains(ty);
    let title = memory_section(k).0;
    let types = memory_section(k).1;
    let body = section_body(reg, thoughts, scores, types, ps);
    lemma_body_lists(reg, thoughts, scores, types, ps, i);
    assert(section_has_items(thoughts, types, ps));
    let head = "## "@ + title + "\n\n"@;
    assert(section(reg, thoughts, scores, title, types, ps) == head + body + "\n"@);
    lemma_contains_tail(head, body);
    lemma_contains_extend(head + body, "\n"@, body);
    lemma_contains_trans(section(reg, thoughts, scores, title, types, ps), body, item);
    lemma_sections_hold(reg, thoughts, scores, ps, 6, k);
    let all = sections_upto(reg, thoughts, scores, ps, 6);
    lemma_contains_trans(all, section(reg, thoughts, scores, title, types, ps), item);
    let intro = "# MEMORY\n\n"@ + "Generated from `"@ + location + "` with "@ + crate::text::decimal(ps.len()) + " thought(s).\n\n"@;
    assert(memory_markdown(reg, thoughts, scores, ps, location) == intro + all);
    lemma_contains_tail(intro, all);
    lemma_contains_trans(memory_markdown(reg, thoughts, scores, ps, location), all, item);
}

} // verus!
