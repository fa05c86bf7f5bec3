use mentisdb::chain::MentisDb;
use mentisdb::kinds::{ThoughtRelationKind, ThoughtRole, ThoughtType};
use mentisdb::markdown::{import_input, memory_item_line, memory_markdown_entries, parse_memory_markdown_line, ScoreText};
use mentisdb::registry::AgentRegistry;
use mentisdb::model::{Score, ThoughtInput, ThoughtRelation, Timestamp};

fn one_thought_chain() -> MentisDb {
    let mut db = MentisDb::new();
    let when = Timestamp { secs: 10, nanos: 0 };
    let input = ThoughtInput::new(ThoughtType::PreferenceUpdate, "User prefers concise Markdown.".to_string());
    let mut t = db.prepare_append("agent1", input, 1, when, when, None).unwrap();
    t.hash_body = vec![0];
    db.commit_thought(MentisDb::seal_thought(t), None, None).unwrap();
    db
}

#[test]
fn memory_markdown_has_the_memory_heading() {
    let db = one_thought_chain();
    let scores = vec![ScoreText { importance: "0.50".to_string(), confidence: String::new() }];
    let markdown = db.to_memory_markdown(None, "/tmp/tc_md", &scores);
    assert!(markdown.contains("# MEMORY"));
    assert!(markdown.starts_with("# MEMORY\n\nGenerated from `/tmp/tc_md` with 1 thought(s).\n\n"));
    assert!(markdown.contains("- [#0] PreferenceUpdate: User prefers concise Markdown. (agent agent1; importance 0.50)\n"), "{}", markdown);
}

#[test]
fn a_memory_line_reads_back() {
    let line = parse_memory_markdown_line("- [#3] Decision: Use PostgreSQL (agent alice; importance 0.90)").unwrap();
    assert_eq!(line.thought_type, ThoughtType::Decision);
    assert_eq!(line.content, "Use PostgreSQL");
    assert_eq!(line.metadata.agent_id.as_deref(), Some("alice"));
    assert_eq!(line.metadata.importance.as_deref(), Some("0.90"));
    assert_eq!(line.metadata.role, ThoughtRole::Memory);
    assert!(parse_memory_markdown_line("# MEMORY").is_none());
}

#[test]
fn exported_markdown_reads_back_entry_by_entry() {
    let db = one_thought_chain();
    let scores = vec![ScoreText { importance: "0.50".to_string(), confidence: String::new() }];
    let markdown = db.to_memory_markdown(None, "here", &scores);
    let entries = memory_markdown_entries(&markdown);
    assert_eq!(entries.len(), 1);
    assert_eq!(entries[0].thought_type, ThoughtType::PreferenceUpdate);
    assert_eq!(entries[0].content, "User prefers concise Markdown.");
    assert_eq!(entries[0].metadata.agent_id.as_deref(), Some("agent1"));
}

#[test]
fn an_imported_line_keeps_its_agent_and_scores() {
    let line = parse_memory_markdown_line("- [#0] Decision: Use PostgreSQL (agent alice; role WorkingMemory; tags db, ops)").unwrap();
    let half = Score { rank: Some(0.5f32.to_bits() as i32) };
    let nine = Score { rank: Some(0.9f32.to_bits() as i32) };
    let (agent, input) = import_input(&line, "default-agent", nine, Some(half));
    assert_eq!(agent, "alice");
    assert_eq!(input.thought_type, ThoughtType::Decision);
    assert_eq!(input.content, "Use PostgreSQL");
    assert_eq!(input.role, ThoughtRole::WorkingMemory);
    assert_eq!(input.importance, nine);
    assert_eq!(input.confidence, Some(half));
    assert_eq!(input.tags, vec!["db".to_string(), "ops".to_string()]);
    let bare = parse_memory_markdown_line("- [#1] Idea: cache it").unwrap();
    let (agent, input) = import_input(&bare, "default-agent", Score { rank: None }, None);
    assert_eq!(agent, "default-agent");
    assert_eq!(input.importance, half);
    assert_eq!(input.confidence, None);
}

#[test]
fn memory_markdown_of_the_full_chain_keeps_superseded_thoughts() {
    let mut db = one_thought_chain();
    let when = Timestamp { secs: 11, nanos: 0 };
    let rel = ThoughtRelation::new(ThoughtRelationKind::Supersedes, 1);
    let input = ThoughtInput::new(ThoughtType::PreferenceUpdate, "User prefers terse Markdown.".to_string()).with_relations(vec![rel]);
    let mut t = db.prepare_append("agent1", input, 2, when, when, None).unwrap();
    t.hash_body = vec![1];
    db.commit_thought(MentisDb::seal_thought(t), None, None).unwrap();
    let scores = vec![
        ScoreText { importance: "0.50".to_string(), confidence: String::new() },
        ScoreText { importance: "0.50".to_string(), confidence: String::new() },
    ];
    let markdown = db.to_memory_markdown(None, "here", &scores);
    assert!(markdown.contains("with 2 thought(s)"), "{}", markdown);
    assert!(markdown.contains("concise"));
    assert!(markdown.contains("terse"));
}

#[test]
fn an_exported_bullet_with_every_field_reads_back() {
    let mut db = MentisDb::new();
    let when = Timestamp { secs: 10, nanos: 0 };
    let half = Score { rank: Some(0.5f32.to_bits() as i32) };
    let input = ThoughtInput::new(ThoughtType::LessonLearned, "Check (agent x) notes twice".to_string())
        .with_role(ThoughtRole::Retrospective)
        .with_confidence(half)
        .with_tags(vec!["db".to_string(), "ops".to_string()]);
    let mut t = db.prepare_append("bob", input, 1, when, when, None).unwrap();
    t.hash_body = vec![0];
    let sealed = MentisDb::seal_thought(t);
    let scores = ScoreText { importance: "0.50".to_string(), confidence: "0.50".to_string() };
    let line = memory_item_line(&AgentRegistry::new(), &sealed, &scores);
    assert_eq!(line, "- [#0] LessonLearned: Check (agent x) notes twice (agent bob; role Retrospective; importance 0.50; confidence 0.50; tags db, ops)\n");
    let back = parse_memory_markdown_line(&line).unwrap();
    assert_eq!(back.thought_type, ThoughtType::LessonLearned);
    assert_eq!(back.content, "Check (agent x) notes twice");
    assert_eq!(back.metadata.agent_id.as_deref(), Some("bob"));
    assert_eq!(back.metadata.role, ThoughtRole::Retrospective);
    assert_eq!(back.metadata.importance.as_deref(), Some("0.50"));
    assert_eq!(back.metadata.confidence.as_deref(), Some("0.50"));
    assert_eq!(back.metadata.tags, vec!["db".to_string(), "ops".to_string()]);
}
