use sha2::Digest;
use mentisdb::binfmt::{binary_payload_layout, payload_schema_version, StoredLayout};
use mentisdb::branch::branch_plan;
use mentisdb::chain::MentisDb;
use mentisdb::chains::rehash_events;
use mentisdb::kinds::{StorageAdapterKind, ThoughtType, TimeWindowUnit};
use mentisdb::llm::LlmExtractionConfig;
use mentisdb::migration::{
    check_open_request, MentisDbMigrationEvent, MigrationAction, MigrationDriver, MigrationInput, MigrationPhase,
};
use mentisdb::model::{ChainError, ThoughtInput, Timestamp};
use mentisdb::window::ThoughtTimeWindow;

#[test]
fn a_huge_window_length_is_refused_rather_than_wrapped() {
    let w = ThoughtTimeWindow { start: 0, delta: u64::MAX, unit: TimeWindowUnit::Seconds };
    match w.to_bounds() {
        Err(ChainError::InvalidInput(m)) => assert_eq!(m, "second-based time window overflows i64"),
        other => panic!("expected a refusal, got {:?}", other),
    }
    let w = ThoughtTimeWindow { start: 10, delta: 5, unit: TimeWindowUnit::Seconds };
    assert_eq!(w.to_bounds().unwrap(), (Timestamp { secs: 10, nanos: 0 }, Timestamp { secs: 15, nanos: 999_999_999 }));
}

#[test]
fn the_model_defaults_to_gpt_4o() {
    let c = LlmExtractionConfig::from_values(Some("key".to_string()), None, None).unwrap();
    assert_eq!(c.model, "gpt-4o");
    assert_eq!(c.base_url, "https://api.openai.com/v1");
}

#[test]
fn an_empty_payload_has_no_schema_version() {
    match binary_payload_layout(&[]) {
        Err(ChainError::InvalidData(_)) => {}
        other => panic!("expected invalid data, got {:?}", other),
    }
    assert_eq!(payload_schema_version(&[2, 9], true).unwrap(), 2);
    assert_eq!(binary_payload_layout(&[2, 9]).unwrap(), StoredLayout::LegacyV1);
}

#[test]
fn a_branch_cannot_share_the_source_key() {
    let mut db = MentisDb::new();
    let when = Timestamp { secs: 1, nanos: 0 };
    let mut t = db.prepare_append("a", ThoughtInput::new(ThoughtType::Decision, "root".to_string()), 7, when, when, None).unwrap();
    t.hash_body = vec![1];
    db.commit_thought(MentisDb::seal_thought(t), None, None).unwrap();
    match branch_plan(&db, "main", 7, "main") {
        Err(ChainError::InvalidInput(m)) => assert_eq!(m, "branch_chain_key must differ from the source chain key"),
        _ => panic!("expected a refusal"),
    }
    assert_eq!(branch_plan(&db, "main", 7, "feature").unwrap().thought_type, ThoughtType::StateSnapshot);
}

#[test]
fn opening_refuses_empty_keys_and_jsonl() {
    assert!(matches!(check_open_request("", StorageAdapterKind::Binary), Err(ChainError::InvalidInput(_))));
    match check_open_request("brain", StorageAdapterKind::Jsonl) {
        Err(ChainError::Unsupported(m)) => assert!(m.contains("chain 'brain' to binary")),
        _ => panic!("expected a refusal"),
    }
    assert!(check_open_request("brain", StorageAdapterKind::Binary).is_ok());
}

#[test]
fn a_rehash_reports_each_chain_twice() {
    let events = rehash_events(&[("a".to_string(), StorageAdapterKind::Binary), ("b".to_string(), StorageAdapterKind::Binary)]);
    assert_eq!(events.len(), 4);
    assert_eq!(events[2], MentisDbMigrationEvent::StartedHashRehash { chain_key: "b".to_string(), current: 2, total: 2 });
    assert_eq!(events[3], MentisDbMigrationEvent::CompletedHashRehash { chain_key: "b".to_string(), current: 2, total: 2 });
}

#[test]
fn a_migration_runs_schema_then_reconciliation() {
    let mut d = MigrationDriver::new(StorageAdapterKind::Binary);
    let s = d.step(MigrationInput::Begin { pending: vec!["old".to_string()] });
    assert_eq!(s.action, MigrationAction::MigrateSchema);
    assert_eq!(s.events.len(), 1);
    let s = d.step(MigrationInput::SchemaMigrated { from_version: 0, to_version: 3 });
    assert_eq!(s.action, MigrationAction::ListCandidates);
    match &s.events[0] {
        MentisDbMigrationEvent::Completed { chain_key, current, total, .. } => {
            assert_eq!((chain_key.as_str(), *current, *total), ("old", 1, 1))
        }
        other => panic!("unexpected {:?}", other),
    }
    let s = d.step(MigrationInput::Candidates {
        entries: vec![("".to_string(), true), ("x".to_string(), false), ("y".to_string(), true)],
    });
    assert_eq!(s.action, MigrationAction::FindSource);
    assert_eq!(d.keys, vec!["y".to_string()]);
    let s = d.step(MigrationInput::Source { from: StorageAdapterKind::Jsonl });
    assert_eq!(s.action, MigrationAction::Reconcile);
    let s = d.step(MigrationInput::Reconciled { report: Some((StorageAdapterKind::Jsonl, StorageAdapterKind::Binary)) });
    assert_eq!(s.action, MigrationAction::Stop);
    assert_eq!(s.events.len(), 1);
    assert_eq!(d.phase, MigrationPhase::Done);
    let s = d.step(MigrationInput::Failed);
    assert_eq!(s.action, MigrationAction::Stop);
    assert_eq!(d.phase, MigrationPhase::Failed);
}

#[test]
fn a_missing_branch_point_is_reported_before_an_equal_key() {
    let db = MentisDb::new();
    match branch_plan(&db, "main", 7, "main") {
        Err(ChainError::NotFound(m)) => {
            assert_eq!(m, "Thought 00000000-0000-0000-0000-000000000007 not found in chain 'main'")
        }
        _ => panic!("expected a missing branch point"),
    }
}

#[test]
fn legacy_hashes_are_hex_sha256_of_the_json() {
    assert_eq!(
        mentisdb::hashing::legacy_thought_hash(b""),
        "e3b0c44298fc1c149afbf4c8996fb92427ae41e4649b934ca495991b7852b855"
    );
}

#[test]
fn thought_hashes_match_bincode_for_long_previous_hashes() {
    for len in [0usize, 250, 251, 300, 70_000] {
        let prev: String = "a".repeat(len);
        let body = vec![1u8, 2, 3];
        let mut bytes = body.clone();
        bytes.extend(bincode::encode_to_vec(prev.as_str(), bincode::config::standard()).unwrap());
        let expected = format!("{:x}", <sha2::Sha256 as Digest>::digest(&bytes));
        assert_eq!(mentisdb::hashing::compute_thought_hash(&body, &prev), expected);
    }
}
