use mentisdb::binfmt::{
    binary_payload_layout, count_binary_records, encode_record, peek_first_schema_version, split_binary_records,
    StoredLayout,
};
use mentisdb::branch::{branch_parent, extend_ancestors};
use mentisdb::chain::MentisDb;
use mentisdb::chains::{is_removed_with_chain, MentisDbRegistry};
use mentisdb::kinds::{StorageAdapterKind, ThoughtRelationKind, ThoughtType, TimeWindowUnit};
use mentisdb::migration::{
    archive_dir_name, discover_chain_file, needs_schema_migration, order_reconciliation_candidates,
    resolve_storage_kind_for_chain, MentisDbMigrationReport, MentisDbRegistration,
};
use mentisdb::model::{ChainError, Score, ThoughtInput, ThoughtRelation, Timestamp};
use mentisdb::naming::{chain_filename, chain_key_from_storage_filename, chain_storage_filename};
use mentisdb::signing::signable_thought;
use mentisdb::window::ThoughtTimeWindow;

fn ts(secs: i64, nanos: u32) -> Timestamp {
    Timestamp { secs, nanos }
}

#[test]
fn chain_filename_depends_on_the_key_only() {
    let a = chain_filename("agent1", "Researcher", Some("rust"), Some("careful"));
    let b = chain_filename("agent1", "Different", Some("go"), Some("direct"));
    let c = chain_filename("agent2", "Researcher", Some("rust"), Some("careful"));
    assert_eq!(a, b);
    assert_ne!(a, c);
}

#[test]
fn storage_filename_is_safe_key_fingerprint_and_extension() {
    assert_eq!(chain_storage_filename("agent1", StorageAdapterKind::Binary), "agent1-cd5078be17d044d5.tcbin");
    assert_eq!(chain_storage_filename("my key/ü", StorageAdapterKind::Jsonl), "my_key_ü-40ab532f3745307c.jsonl");
}

#[test]
fn storage_filename_round_trips_to_the_key() {
    let filename = chain_storage_filename("borganism-brain", StorageAdapterKind::Binary);
    assert_eq!(filename, "borganism-brain-95f7ca06e6e127a6.tcbin");
    assert_eq!(chain_key_from_storage_filename(&filename).unwrap(), "borganism-brain");
    assert!(chain_key_from_storage_filename("notes.txt").is_none());
    assert!(chain_key_from_storage_filename("key-12345.tcbin").is_none());
}

#[test]
fn records_frame_and_split_back() {
    let mut data = encode_record(&[3, 1, 2]);
    data.extend(encode_record(&[3]));
    assert_eq!(&data[..8], &[3, 0, 0, 0, 0, 0, 0, 0]);
    let parts = split_binary_records(&data).unwrap();
    assert_eq!(parts, vec![vec![3, 1, 2], vec![3]]);
    assert_eq!(count_binary_records(&data).unwrap(), 2);
    assert_eq!(peek_first_schema_version(&data).unwrap(), 3);
    assert_eq!(peek_first_schema_version(&[1, 2]).unwrap(), 0);
}

#[test]
fn a_cut_record_is_refused_when_split() {
    let mut data = encode_record(&[3, 1, 2]);
    data.truncate(9);
    match split_binary_records(&data) {
        Err(ChainError::UnexpectedEof(_)) => {},
        _ => panic!("expected a truncated record"),
    }
    assert_eq!(count_binary_records(&data).unwrap(), 1);
}

#[test]
fn payload_layout_follows_the_schema_version() {
    assert_eq!(binary_payload_layout(&[3, 9]).unwrap(), StoredLayout::Current);
    assert_eq!(binary_payload_layout(&[2]).unwrap(), StoredLayout::LegacyV1);
    assert_eq!(binary_payload_layout(&[0]).unwrap(), StoredLayout::LegacyV0);
    match binary_payload_layout(&[]) {
        Err(ChainError::InvalidData(m)) => assert!(m.starts_with("Failed to decode schema version from thought: "), "{}", m),
        _ => panic!("expected an undecodable version"),
    }
}

#[test]
fn second_windows_cover_whole_seconds() {
    let w = ThoughtTimeWindow { start: 1000, delta: 60, unit: TimeWindowUnit::Seconds };
    assert_eq!(w.to_bounds().unwrap(), (ts(1000, 0), ts(1060, 999_999_999)));
}

#[test]
fn millisecond_windows_split_into_seconds_and_nanoseconds() {
    let w = ThoughtTimeWindow { start: 1500, delta: 250, unit: TimeWindowUnit::Milliseconds };
    assert_eq!(w.to_bounds().unwrap(), (ts(1, 500_000_000), ts(1, 750_999_999)));
    let w = ThoughtTimeWindow { start: -1, delta: 0, unit: TimeWindowUnit::Milliseconds };
    assert_eq!(w.to_bounds().unwrap(), (ts(-1, 999_000_000), ts(-1, 999_999_999)));
}

#[test]
fn windows_out_of_range_are_refused() {
    let w = ThoughtTimeWindow { start: i64::MAX, delta: 1, unit: TimeWindowUnit::Seconds };
    match w.to_bounds() {
        Err(ChainError::InvalidInput(m)) => assert_eq!(m, "second-based time window overflows i64"),
        _ => panic!("expected an overflow"),
    }
    let w = ThoughtTimeWindow { start: i64::MAX / 2, delta: 0, unit: TimeWindowUnit::Seconds };
    match w.to_bounds() {
        Err(ChainError::InvalidInput(m)) => assert_eq!(m, "time window falls outside the supported UTC timestamp range"),
        _ => panic!("expected an out-of-range instant"),
    }
}

#[test]
fn windows_reach_exactly_to_the_ends_of_the_utc_calendar() {
    let last = 8_210_266_876_799i64;
    let w = ThoughtTimeWindow { start: last, delta: 0, unit: TimeWindowUnit::Seconds };
    assert_eq!(w.to_bounds().unwrap(), (ts(last, 0), ts(last, 999_999_999)));
    let w = ThoughtTimeWindow { start: last + 1, delta: 0, unit: TimeWindowUnit::Seconds };
    assert!(w.to_bounds().is_err());
    let first = -8_334_601_228_800i64;
    let w = ThoughtTimeWindow { start: first, delta: 0, unit: TimeWindowUnit::Seconds };
    assert_eq!(w.to_bounds().unwrap(), (ts(first, 0), ts(first, 999_999_999)));
    let w = ThoughtTimeWindow { start: first - 1, delta: 0, unit: TimeWindowUnit::Seconds };
    assert!(w.to_bounds().is_err());
}

#[test]
fn chain_files_are_recognised_by_name() {
    let name = chain_storage_filename("brain", StorageAdapterKind::Binary);
    let (key, kind) = discover_chain_file(&name).unwrap();
    assert_eq!(key, "brain");
    assert_eq!(kind, StorageAdapterKind::Binary);
    assert!(discover_chain_file("brain.txt").is_none());
}

#[test]
fn storage_kind_resolution_refuses_retired_and_conflicting_files() {
    assert_eq!(resolve_storage_kind_for_chain("c", None, false, false, StorageAdapterKind::Binary).unwrap(), StorageAdapterKind::Binary);
    match resolve_storage_kind_for_chain("c", None, true, true, StorageAdapterKind::Binary) {
        Err(ChainError::InvalidData(m)) => assert_eq!(m, "Conflicting storage files exist for chain 'c' without a registry entry"),
        _ => panic!("expected a conflict"),
    }
    match resolve_storage_kind_for_chain("c", Some(StorageAdapterKind::Jsonl), false, false, StorageAdapterKind::Binary) {
        Err(ChainError::Unsupported(m)) => assert!(m.contains("convert chain 'c' to binary")),
        _ => panic!("expected the retired format to be refused"),
    }
}

#[test]
fn migration_decisions() {
    assert!(needs_schema_migration(None));
    assert!(needs_schema_migration(Some(2)));
    assert!(!needs_schema_migration(Some(3)));
    assert_eq!(archive_dir_name(0, 3), "migrations/v0_to_v3");
    let kinds = [StorageAdapterKind::Jsonl, StorageAdapterKind::Binary, StorageAdapterKind::Jsonl];
    let order = order_reconciliation_candidates(Some(StorageAdapterKind::Jsonl), &kinds, StorageAdapterKind::Binary);
    assert_eq!(order, vec![0, 2, 1]);
}

fn registration(key: &str, created: i64) -> MentisDbRegistration {
    MentisDbRegistration {
        chain_key: key.to_string(),
        version: 3,
        storage_adapter: StorageAdapterKind::Binary,
        storage_location: format!("/data/{key}.tcbin"),
        thought_count: 1,
        agent_count: 1,
        entity_type_count: 0,
        created_at: ts(created, 0),
        updated_at: ts(created, 0),
    }
}

#[test]
fn chain_registry_keeps_keys_in_order_and_removes() {
    let mut reg = MentisDbRegistry::new(1);
    reg.upsert(registration("b", 1));
    reg.upsert(registration("a", 2));
    reg.upsert(registration("b", 3));
    let keys: Vec<&str> = reg.chains.iter().map(|e| e.chain_key.as_str()).collect();
    assert_eq!(keys, vec!["a", "b"]);
    assert_eq!(reg.get("b").unwrap().created_at, ts(3, 0));
    let removed = reg.remove("a").unwrap();
    assert_eq!(removed.chain_key, "a");
    assert!(reg.get("a").is_none());
    assert!(reg.remove("zzz").is_none());
}

#[test]
fn a_report_keeps_the_creation_instant_of_an_entry() {
    let mut reg = MentisDbRegistry::new(1);
    reg.upsert(registration("brain", 5));
    let report = MentisDbMigrationReport {
        chain_key: "brain".to_string(),
        from_version: 0,
        to_version: 3,
        source_storage_adapter: StorageAdapterKind::Jsonl,
        storage_adapter: StorageAdapterKind::Binary,
        thought_count: 42,
        archived_legacy_path: None,
    };
    reg.register_report(&report, "/data/brain.tcbin".to_string(), 2, 1, ts(9, 0));
    let e = reg.get("brain").unwrap();
    assert_eq!(e.created_at, ts(5, 0));
    assert_eq!(e.updated_at, ts(9, 0));
    assert_eq!(e.thought_count, 42);
    assert_eq!(e.version, 3);
}

#[test]
fn refreshing_counts_reports_changes() {
    let mut e = registration("x", 1);
    assert!(!e.refresh_counts(Some(1), Some(1), ts(2, 0)));
    assert!(!e.refresh_counts(None, Some(5), ts(2, 0)));
    assert!(e.refresh_counts(Some(7), Some(1), ts(2, 0)));
    assert_eq!(e.thought_count, 7);
    assert_eq!(e.updated_at, ts(2, 0));
}

#[test]
fn rehash_candidates_skip_empty_keys_and_current_files() {
    let mut reg = MentisDbRegistry::new(1);
    reg.upsert(registration("", 1));
    reg.upsert(registration("a", 1));
    reg.upsert(registration("b", 1));
    let c = reg.hash_rehash_candidates(&[true, false, true]);
    assert_eq!(c, vec![("b".to_string(), StorageAdapterKind::Binary)]);
}

#[test]
fn chain_removal_takes_its_sidecars() {
    assert!(is_removed_with_chain("brain-0123456789abcdef", "brain-0123456789abcdef.vectors.local.json"));
    assert!(is_removed_with_chain("brain-0123456789abcdef", "brain-0123456789abcdef.auto_edges.bin"));
    assert!(!is_removed_with_chain("brain-0123456789abcdef", "brain-0123456789abcdef.tcbin"));
    assert!(!is_removed_with_chain("brain-0123456789abcdef", "other.vectors.local.json"));
}

#[test]
fn uuids_render_hyphenated_lowercase() {
    let db = MentisDb::new();
    match db.branch_thought_input("main", 0x67e5504410b1426f9247bb680e5fe0c8, "feature") {
        Err(ChainError::NotFound(m)) => assert_eq!(m, "Thought 67e55044-10b1-426f-9247-bb680e5fe0c8 not found in chain 'main'"),
        _ => panic!("expected a missing branch point"),
    }
    match db.branch_thought_input("main", 0, "feature") {
        Err(ChainError::NotFound(m)) => assert_eq!(m, "Thought 00000000-0000-0000-0000-000000000000 not found in chain 'main'"),
        _ => panic!("expected a missing branch point"),
    }
}

#[test]
fn branch_input_points_back_to_the_source() {
    let mut src = MentisDb::new();
    let mut t = src.prepare_append("a", ThoughtInput::new(ThoughtType::Decision, "root".to_string()), 7, ts(1, 0), ts(1, 0), None).unwrap();
    t.hash_body = vec![1];
    src.commit_thought(MentisDb::seal_thought(t), None, None).unwrap();
    let input = src.branch_thought_input("main", 7, "feature").unwrap();
    assert_eq!(input.thought_type, ThoughtType::StateSnapshot);
    assert_eq!(input.content, "Branch from chain 'main' at thought 00000000-0000-0000-0000-000000000007");
    assert_eq!(input.relations.len(), 1);
    assert_eq!(input.relations[0].kind, ThoughtRelationKind::BranchesFrom);
    assert_eq!(input.relations[0].chain_key.as_deref(), Some("main"));
    match src.branch_thought_input("main", 8, "feature") {
        Err(ChainError::NotFound(m)) => assert_eq!(m, "Thought 00000000-0000-0000-0000-000000000008 not found in chain 'main'"),
        _ => panic!("expected a missing branch point"),
    }
    match src.branch_thought_input("main", 7, "") {
        Err(ChainError::InvalidInput(m)) => assert_eq!(m, "branch_chain_key must not be empty"),
        _ => panic!("expected an empty branch key"),
    }
}

#[test]
fn ancestors_stop_at_the_first_repeat() {
    let mut branch = MentisDb::new();
    let rel = ThoughtRelation {
        kind: ThoughtRelationKind::BranchesFrom,
        target_id: 7,
        chain_key: Some("main".to_string()),
        valid_at: None,
        invalid_at: None,
    };
    let input = ThoughtInput::new(ThoughtType::StateSnapshot, "branch".to_string()).with_relations(vec![rel]);
    let mut t = branch.prepare_append("mentisdb", input, 9, ts(2, 0), ts(2, 0), None).unwrap();
    t.hash_body = vec![2];
    branch.commit_thought(MentisDb::seal_thought(t), None, None).unwrap();
    assert_eq!(branch.parent_chain_key().as_deref(), Some("main"));
    assert_eq!(branch_parent(branch.genesis_thought().unwrap()).as_deref(), Some("main"));
    let mut ancestors = Vec::new();
    assert!(extend_ancestors(&mut ancestors, Some("main".to_string())));
    assert!(!extend_ancestors(&mut ancestors, Some("main".to_string())));
    assert!(!extend_ancestors(&mut ancestors, None));
    assert_eq!(ancestors, vec!["main".to_string()]);
}

#[test]
fn signable_payload_normalizes_labels_and_clamps_scores() {
    let input = ThoughtInput::new(ThoughtType::Idea, "try it".to_string())
        .with_tags(vec![" a ".to_string(), "A".to_string(), "".to_string(), "b".to_string()])
        .with_importance(Score { rank: Some(1_070_000_000) });
    let s = signable_thought("agent", &input);
    assert_eq!(s.schema_version, 3);
    assert_eq!(s.agent_id, "agent");
    assert_eq!(s.tags, vec!["a".to_string(), "b".to_string()]);
    assert_eq!(s.importance, Score { rank: Some(1_065_353_216) });
    assert_eq!(s.content, "try it");
}
