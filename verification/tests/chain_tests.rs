use mentisdb::chain::{MentisDb, ThoughtTraversalAnchor};
use mentisdb::hashing::{carries_legacy_hash, compute_thought_hash};
use mentisdb::markdown::ScoreText;
use mentisdb::kinds::{ThoughtRelationKind, ThoughtRole, ThoughtType};
use mentisdb::model::{ChainError, Thought, ThoughtInput, ThoughtRelation, Timestamp};
use mentisdb::query::ThoughtQuery;

fn ts(secs: i64) -> Timestamp {
    Timestamp { secs, nanos: 0 }
}

fn append_input(db: &mut MentisDb, agent: &str, input: ThoughtInput, id: u128, secs: i64) -> String {
    let mut t = db.prepare_append(agent, input, id, ts(secs), ts(secs), None).unwrap();
    t.hash_body = format!("body-{id}").into_bytes();
    let t = MentisDb::seal_thought(t);
    let hash = t.hash.clone();
    db.commit_thought(t, Some("Agent Name"), None).unwrap();
    hash
}

fn append(db: &mut MentisDb, agent: &str, thought_type: ThoughtType, content: &str, id: u128, secs: i64) -> String {
    append_input(db, agent, ThoughtInput::new(thought_type, content.to_string()), id, secs)
}

#[test]
fn empty_body_and_previous_hash_hash_to_sha256_of_one_zero_byte() {
    let h = compute_thought_hash(&[], "");
    assert_eq!(h, "6e340b9cffb37a989ca544e6bb780a2c78901d3fb33738768511a30617afa01d");
}

#[test]
fn hash_covers_body_then_encoded_previous_hash() {
    let h = compute_thought_hash(b"body", "prev");
    assert_eq!(h, "29716463f90ac90846ed43fb423ad78f99734cb2cd6a8e3d018cfb40b8e74fe8");
}

#[test]
fn appended_thoughts_link_and_verify() {
    let mut db = MentisDb::new();
    let h0 = append(&mut db, "agent1", ThoughtType::Decision, "Use SQLite for local state.", 1, 100);
    let h1 = append(&mut db, "agent1", ThoughtType::Finding, "Latency dropped.", 2, 101);
    assert!(db.verify_integrity());
    assert_eq!(db.thoughts().len(), 2);
    assert_eq!(db.head_hash(), Some(h1.as_str()));
    let first = db.get_thought_by_index(0).unwrap();
    assert_eq!(first.index, 0);
    assert_eq!(first.prev_hash, "");
    let second = db.get_thought_by_index(1).unwrap();
    assert_eq!(second.prev_hash, h0);
    assert_eq!(db.get_thought_by_id(2).unwrap().content, "Latency dropped.");
    assert_eq!(db.get_thought_by_hash(&h0).unwrap().id, 1);
    assert!(db.get_thought_by_index(2).is_none());
    assert_eq!(db.genesis_thought().unwrap().id, 1);
    assert_eq!(db.head_thought().unwrap().id, 2);
}

#[test]
fn commit_refuses_a_thought_that_does_not_extend_the_chain() {
    let mut db = MentisDb::new();
    append(&mut db, "agent1", ThoughtType::Decision, "first", 1, 100);
    let mut t = db.prepare_append("agent1", ThoughtInput::new(ThoughtType::Idea, "second".to_string()), 2, ts(101), ts(101), None).unwrap();
    t.hash_body = b"x".to_vec();
    let mut sealed = MentisDb::seal_thought(t);
    sealed.prev_hash = "not the head".to_string();
    assert!(db.commit_thought(sealed, None, None).is_err());
    assert_eq!(db.thoughts().len(), 1);
    assert!(db.verify_integrity());
}

#[test]
fn prepare_refuses_references_past_the_end() {
    let mut db = MentisDb::new();
    append(&mut db, "agent1", ThoughtType::Decision, "first", 1, 100);
    let input = ThoughtInput::new(ThoughtType::Idea, "refers ahead".to_string()).with_refs(vec![5]);
    match db.prepare_append("agent1", input, 2, ts(101), ts(101), None) {
        Err(ChainError::InvalidInput(_)) => {},
        _ => panic!("expected an invalid reference"),
    }
}

#[test]
fn appending_registers_the_agent() {
    let mut db = MentisDb::new();
    append(&mut db, "agent1", ThoughtType::Decision, "first", 1, 100);
    append(&mut db, "agent1", ThoughtType::Decision, "second", 2, 101);
    let rec = db.get_agent("agent1").unwrap();
    assert_eq!(rec.thought_count, 2);
    assert_eq!(rec.display_name, "Agent Name");
    assert_eq!(rec.first_seen_index, Some(0));
    assert_eq!(rec.last_seen_index, Some(1));
    assert!(db.get_agent("nobody").is_none());
}

#[test]
fn upsert_agent_creates_and_updates_records() {
    let mut db = MentisDb::new();
    let rec = db.upsert_agent("  planner ", Some("Planner"), Some("team-a"), Some("plans work"), None).unwrap();
    assert_eq!(rec.agent_id, "planner");
    assert_eq!(rec.display_name, "Planner");
    assert_eq!(rec.owner.as_deref(), Some("team-a"));
    assert_eq!(rec.description.as_deref(), Some("plans work"));
    assert_eq!(rec.thought_count, 0);
    let rec = db.upsert_agent("planner", Some("Chief Planner"), None, Some("  "), None).unwrap();
    assert_eq!(rec.display_name, "Chief Planner");
    assert_eq!(rec.aliases, vec!["Planner".to_string()]);
    assert_eq!(rec.owner.as_deref(), Some("team-a"));
    assert_eq!(rec.description, None);
    assert_eq!(db.list_agent_registry().len(), 1);
    match db.upsert_agent("   ", None, None, None, None) {
        Err(ChainError::InvalidInput(m)) => assert_eq!(m, "agent_id must not be empty"),
        _ => panic!("expected an invalid id"),
    }
}

#[test]
fn agent_edits_refuse_unknown_agents() {
    let mut db = MentisDb::new();
    match db.set_agent_description("ghost", Some("x")) {
        Err(ChainError::NotFound(m)) => assert_eq!(m, "No agent 'ghost' is registered in this chain"),
        _ => panic!("expected not found"),
    }
    match db.add_agent_alias("ghost", "  ") {
        Err(ChainError::InvalidInput(m)) => assert_eq!(m, "alias must not be empty"),
        _ => panic!("expected an invalid alias"),
    }
    match db.disable_agent("") {
        Err(ChainError::InvalidInput(m)) => assert_eq!(m, "agent_id must not be empty"),
        _ => panic!("expected an invalid id"),
    }
}

#[test]
fn agent_alias_description_and_disable() {
    let mut db = MentisDb::new();
    db.upsert_agent("a1", Some("Alpha"), None, None, None).unwrap();
    let rec = db.add_agent_alias("a1", " Al ").unwrap();
    assert_eq!(rec.aliases, vec!["a1".to_string(), "Al".to_string()]);
    let rec = db.add_agent_alias("a1", "al").unwrap();
    assert_eq!(rec.aliases, vec!["a1".to_string(), "Al".to_string()]);
    let rec = db.add_agent_alias("a1", "ALPHA").unwrap();
    assert_eq!(rec.aliases.len(), 2);
    let rec = db.set_agent_description("a1", Some(" does things ")).unwrap();
    assert_eq!(rec.description.as_deref(), Some("does things"));
    let rec = db.disable_agent("a1").unwrap();
    assert_eq!(rec.status, mentisdb::kinds::AgentStatus::Revoked);
    assert_eq!(db.get_agent("a1").unwrap().status, mentisdb::kinds::AgentStatus::Revoked);
}

#[test]
fn agent_keys_are_added_replaced_and_revoked() {
    let mut db = MentisDb::new();
    db.upsert_agent("a1", None, None, None, None).unwrap();
    match db.add_agent_key("a1", "k1", mentisdb::kinds::PublicKeyAlgorithm::Ed25519, vec![], ts(5)) {
        Err(ChainError::InvalidInput(m)) => assert_eq!(m, "public_key_bytes must not be empty"),
        _ => panic!("expected empty key bytes to be refused"),
    }
    let rec = db.add_agent_key("a1", " k1 ", mentisdb::kinds::PublicKeyAlgorithm::Ed25519, vec![1, 2, 3], ts(5)).unwrap();
    assert_eq!(rec.public_keys.len(), 1);
    assert_eq!(rec.public_keys[0].key_id, "k1");
    assert_eq!(rec.public_keys[0].added_at, ts(5));
    let rec = db.add_agent_key("a1", "k1", mentisdb::kinds::PublicKeyAlgorithm::Ed25519, vec![9], ts(6)).unwrap();
    assert_eq!(rec.public_keys.len(), 1);
    assert_eq!(rec.public_keys[0].public_key_bytes, vec![9]);
    let rec = db.revoke_agent_key("a1", "k1", ts(7)).unwrap();
    assert_eq!(rec.public_keys[0].revoked_at, Some(ts(7)));
    match db.revoke_agent_key("a1", "k2", ts(8)) {
        Err(ChainError::NotFound(m)) => assert_eq!(m, "No key 'k2' found for agent 'a1'"),
        _ => panic!("expected a missing key"),
    }
}

#[test]
fn entity_types_can_be_registered_ahead_of_thoughts() {
    let mut db = MentisDb::new();
    let rec = db.upsert_entity_type(" person ", ts(3)).unwrap();
    assert_eq!(rec.entity_type, "person");
    assert_eq!(rec.thought_count, 1);
    assert_eq!(rec.first_seen_at, Some(ts(3)));
    let again = db.upsert_entity_type("person", ts(9)).unwrap();
    assert_eq!(again.first_seen_at, Some(ts(3)));
    assert_eq!(db.list_entity_types().len(), 1);
    assert!(db.get_entity_type("place").is_none());
    assert!(db.upsert_entity_type("  ", ts(1)).is_err());
}

#[test]
fn context_follows_refs_and_in_chain_relations_only() {
    let mut db = MentisDb::new();
    append(&mut db, "a", ThoughtType::Finding, "root", 10, 100);
    append(&mut db, "a", ThoughtType::Finding, "unrelated", 11, 101);
    append_input(&mut db, "a", ThoughtInput::new(ThoughtType::Decision, "uses root".to_string()).with_refs(vec![0]), 12, 102);
    let cross = ThoughtRelation {
        kind: ThoughtRelationKind::References,
        target_id: 11,
        chain_key: Some("other".to_string()),
        valid_at: None,
        invalid_at: None,
    };
    let local = ThoughtRelation::new(ThoughtRelationKind::DerivedFrom, 12);
    append_input(&mut db, "a", ThoughtInput::new(ThoughtType::Insight, "top".to_string()).with_relations(vec![cross, local]), 13, 103);
    let ids: Vec<u128> = db.resolve_context(3).iter().map(|t| t.id).collect();
    assert_eq!(ids, vec![10, 12, 13]);
    let ids: Vec<u128> = db.resolve_context_by_id(12).iter().map(|t| t.id).collect();
    assert_eq!(ids, vec![10, 12]);
    assert!(db.resolve_context(9).is_empty());
    assert!(db.resolve_context_by_id(99).is_empty());
}

#[test]
fn catchup_prompt_lists_the_last_thoughts() {
    let mut db = MentisDb::new();
    append(&mut db, "agent1", ThoughtType::Decision, "first", 1, 100);
    append(&mut db, "agent1", ThoughtType::Finding, "second", 2, 101);
    let prompt = db.to_catchup_prompt(1);
    assert_eq!(
        prompt,
        "=== RECENT CONTEXT ===\n\n[#1] Finding / Memory (Agent Name [agent1]) second\n\n=== END RECENT CONTEXT ===\n"
    );
    assert_eq!(MentisDb::new().to_catchup_prompt(3), "");
}

#[test]
fn bootstrap_prompt_renders_scores_and_labels() {
    let mut db = MentisDb::new();
    let input = ThoughtInput::new(ThoughtType::Decision, "Use Rust".to_string())
        .with_tags(vec!["lang".to_string()])
        .with_concepts(vec!["tooling".to_string(), "speed".to_string()]);
    append_input(&mut db, "agent1", input, 1, 100);
    let scores = vec![ScoreText { importance: "0.50".to_string(), confidence: String::new() }];
    let prompt = db.to_bootstrap_prompt(0, &scores);
    assert_eq!(
        prompt,
        "=== RESTORED CONTEXT (from MentisDb) ===\n\n[#0] Decision / Memory (Agent Name [agent1])\nUse Rust\n  importance: 0.50\n  tags: lang\n  concepts: tooling, speed\n\n=== END RESTORED CONTEXT ===\n"
    );
    assert_eq!(db.to_bootstrap_prompt(4, &scores), "");
}

#[test]
fn related_to_concept_matches_case_insensitively_and_limits() {
    let mut db = MentisDb::new();
    for i in 0..3u128 {
        let input = ThoughtInput::new(ThoughtType::Finding, format!("note {i}")).with_concepts(vec!["Caching".to_string()]);
        append_input(&mut db, "a", input, 100 + i, 10 + i as i64);
    }
    append(&mut db, "a", ThoughtType::Finding, "no concept", 200, 20);
    let found: Vec<u128> = db.related_to_concept("caching", 2).iter().map(|t| t.id).collect();
    assert_eq!(found, vec![101, 102]);
}

#[test]
fn query_text_matches_ignoring_case() {
    let mut db = MentisDb::new();
    append(&mut db, "a", ThoughtType::Finding, "Cache Invalidation is hard", 1, 10);
    append(&mut db, "a", ThoughtType::Finding, "naming things", 2, 11);
    let q = ThoughtQuery::new().with_text("cache invalidation".to_string());
    let found: Vec<u128> = db.query(&q).iter().map(|t| t.id).collect();
    assert_eq!(found, vec![1]);
}

#[test]
fn thought_lookup_by_anchor() {
    let mut db = MentisDb::new();
    let h = append(&mut db, "a", ThoughtType::Finding, "x", 1, 10);
    append(&mut db, "a", ThoughtType::Finding, "y", 2, 11);
    assert_eq!(db.get_thought(&ThoughtTraversalAnchor::Genesis).unwrap().id, 1);
    assert_eq!(db.get_thought(&ThoughtTraversalAnchor::Head).unwrap().id, 2);
    assert_eq!(db.get_thought(&ThoughtTraversalAnchor::Hash(h)).unwrap().id, 1);
    assert!(db.get_thought(&ThoughtTraversalAnchor::Index(7)).is_none());
}

#[test]
fn loading_refuses_thoughts_out_of_position() {
    let mut db = MentisDb::new();
    append(&mut db, "a", ThoughtType::Finding, "x", 1, 10);
    let t: &Thought = db.get_thought_by_index(0).unwrap();
    assert_eq!(t.role, ThoughtRole::Memory);
    match MentisDb::load(vec![], vec![], vec![]) {
        Ok(empty) => assert!(empty.thoughts().is_empty()),
        Err(_) => panic!("an empty chain loads"),
    }
}

#[test]
fn legacy_hashes_are_told_from_current_ones() {
    assert!(carries_legacy_hash("abc", "abc", b"", ""));
    assert!(!carries_legacy_hash("abc", "abd", b"", ""));
    let current = compute_thought_hash(b"body", "prev");
    assert!(!carries_legacy_hash(&current, &current, b"body", "prev"));
}
