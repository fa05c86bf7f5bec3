use mentisdb::chain::{MentisDb, ThoughtTraversalAnchor};
use mentisdb::kinds::{ThoughtRelationKind, ThoughtRole, ThoughtTraversalDirection, ThoughtType};
use mentisdb::model::{ChainError, ThoughtInput, ThoughtRelation, Timestamp};
use mentisdb::query::ThoughtQuery;
use mentisdb::traversal::ThoughtTraversalRequest;

fn ts(secs: i64) -> Timestamp {
    Timestamp { secs, nanos: 0 }
}

fn add(db: &mut MentisDb, agent: &str, input: ThoughtInput, id: u128, secs: i64) {
    let mut t = db.prepare_append(agent, input, id, ts(secs), ts(secs), None).unwrap();
    t.hash_body = id.to_le_bytes().to_vec();
    db.commit_thought(MentisDb::seal_thought(t), None, None).unwrap();
}

/// Five thoughts: Decision, Finding, Decision, Finding, Decision at seconds 10..14.
fn five() -> MentisDb {
    let mut db = MentisDb::new();
    for i in 0..5u128 {
        let ty = if i % 2 == 0 { ThoughtType::Decision } else { ThoughtType::Finding };
        let input = ThoughtInput::new(ty, format!("thought {i}")).with_tags(vec![format!("t{}", i % 2)]);
        let agent = if i < 3 { "alice" } else { "bob" };
        add(&mut db, agent, input, i + 1, 10 + i as i64);
    }
    db
}

fn ids(v: &[&mentisdb::model::Thought]) -> Vec<u128> {
    v.iter().map(|t| t.id).collect()
}

#[test]
fn forward_pages_continue_after_the_anchor() {
    let db = five();
    let req = ThoughtTraversalRequest::new(ThoughtTraversalAnchor::Genesis, ThoughtTraversalDirection::Forward, 2);
    let page = db.traverse_thoughts(&req).unwrap();
    assert_eq!(ids(&page.thoughts), vec![2, 3]);
    assert!(page.has_more);
    assert_eq!(page.next_cursor.as_ref().unwrap().index, 2);
    assert_eq!(page.previous_cursor.as_ref().unwrap().index, 1);
    assert_eq!(page.anchor.as_ref().unwrap().index, 0);
}

#[test]
fn backward_pages_may_include_the_anchor() {
    let db = five();
    let req = ThoughtTraversalRequest::new(ThoughtTraversalAnchor::Head, ThoughtTraversalDirection::Backward, 10)
        .with_include_anchor(true);
    let page = db.traverse_thoughts(&req).unwrap();
    assert_eq!(ids(&page.thoughts), vec![5, 4, 3, 2, 1]);
    assert!(!page.has_more);
}

#[test]
fn filtered_traversal_skips_other_types() {
    let db = five();
    let req = ThoughtTraversalRequest::new(ThoughtTraversalAnchor::Index(0), ThoughtTraversalDirection::Forward, 5)
        .with_include_anchor(true)
        .with_filter(ThoughtQuery::new().with_types(vec![ThoughtType::Decision]));
    let page = db.traverse_thoughts(&req).unwrap();
    assert_eq!(ids(&page.thoughts), vec![1, 3, 5]);
}

#[test]
fn traversal_refuses_empty_pages_and_reports_missing_anchors() {
    let db = five();
    let req = ThoughtTraversalRequest::new(ThoughtTraversalAnchor::Genesis, ThoughtTraversalDirection::Forward, 0);
    match db.traverse_thoughts(&req) {
        Err(ChainError::InvalidInput(m)) => assert_eq!(m, "chunk_size must be greater than zero"),
        _ => panic!("expected a refusal"),
    }
    let req = ThoughtTraversalRequest::new(ThoughtTraversalAnchor::Id(77), ThoughtTraversalDirection::Forward, 3);
    let page = db.traverse_thoughts(&req).unwrap();
    assert!(page.anchor.is_none());
    assert!(page.thoughts.is_empty());
    assert!(!page.has_more);
}

#[test]
fn queries_combine_filters() {
    let db = five();
    let q = ThoughtQuery::new().with_agent_ids(vec!["alice".to_string()]).with_tags_any(vec!["T0".to_string()]);
    assert_eq!(ids(&db.query(&q)), vec![1, 3]);
    let q = ThoughtQuery::new().with_since(ts(12)).with_until(ts(13));
    assert_eq!(ids(&db.query(&q)), vec![3, 4]);
    let q = ThoughtQuery::new().with_types(vec![ThoughtType::Finding]).with_limit(1);
    assert_eq!(ids(&db.query(&q)), vec![4]);
    let q = ThoughtQuery::new().with_roles(vec![ThoughtRole::Summary]);
    assert!(db.query(&q).is_empty());
}

#[test]
fn superseded_thoughts_are_hidden_by_default() {
    let mut db = five();
    let rel = ThoughtRelation::new(ThoughtRelationKind::Supersedes, 2);
    add(&mut db, "alice", ThoughtInput::new(ThoughtType::Correction, "fixed".to_string()).with_relations(vec![rel]), 6, 20);
    assert!(db.is_invalidated(2));
    assert!(!db.is_invalidated(1));
    let all = db.query(&ThoughtQuery::new());
    assert_eq!(ids(&all), vec![1, 3, 4, 5, 6]);
    let with_hidden = db.query(&ThoughtQuery::new().with_include_invalidated(true));
    assert_eq!(ids(&with_hidden), vec![1, 2, 3, 4, 5, 6]);
    assert!(db.is_invalidated_as_of(2, ts(25)));
    assert!(!db.is_invalidated_as_of(2, ts(5)));
}

#[test]
fn a_limit_keeps_the_newest_matches() {
    let db = five();
    let all = db.query(&ThoughtQuery::new());
    let last_two = db.query(&ThoughtQuery::new().with_limit(2));
    assert_eq!(ids(&last_two), ids(&all[all.len() - 2..]));
}

#[test]
fn opening_recounts_the_agent_registry() {
    let mut db = MentisDb::new();
    let mut stored = Vec::new();
    for i in 0..3u128 {
        let agent = if i < 2 { "alice" } else { "bob" };
        let make = || ThoughtInput::new(ThoughtType::Decision, format!("thought {i}"));
        let mut kept = db.prepare_append(agent, make(), i + 1, ts(10), ts(10), None).unwrap();
        kept.hash_body = vec![i as u8];
        stored.push(MentisDb::seal_thought(kept));
        let mut t = db.prepare_append(agent, make(), i + 1, ts(10), ts(10), None).unwrap();
        t.hash_body = vec![i as u8];
        db.commit_thought(MentisDb::seal_thought(t), None, None).unwrap();
    }
    let mut agents = db.agent_registry().agents.clone();
    for a in agents.iter_mut() {
        a.thought_count = 99;
    }
    let reopened = MentisDb::load(stored, agents, Vec::new()).unwrap();
    let counts: Vec<(String, u64)> =
        reopened.agent_registry().agents.iter().map(|a| (a.agent_id.clone(), a.thought_count)).collect();
    assert_eq!(counts, vec![("alice".to_string(), 2), ("bob".to_string(), 1)]);
}

#[test]
fn backward_pages_without_the_anchor_list_earlier_thoughts_newest_first() {
    let db = five();
    let req = ThoughtTraversalRequest::new(ThoughtTraversalAnchor::Index(3), ThoughtTraversalDirection::Backward, 2);
    let page = db.traverse_thoughts(&req).unwrap();
    let indexes: Vec<u64> = page.thoughts.iter().map(|t| t.index).collect();
    assert_eq!(indexes, vec![2, 1]);
    assert!(page.has_more);
}
