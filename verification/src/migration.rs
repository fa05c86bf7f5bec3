//! The decisions of opening and migrating the chains of a directory: which
//! storage a chain uses, which files are chains, which chains need work and
//! in what order their copies are tried. The caller performs the file work.
use vstd::prelude::*;
use crate::kinds::{StorageAdapterKind, MENTISDB_CURRENT_VERSION};
use crate::model::{ChainError, Timestamp};
use crate::naming::{chain_key_from_storage_filename, key_from_filename};
use crate::text::{concat_str, decimal, u64_to_decimal};

verus! {

/// What a migration did to one chain.
#[derive(Debug, Clone, PartialEq, Eq)]
pub struct MentisDbMigrationReport {
    /// The chain.
    pub chain_key: String,
    /// Schema version before.
    pub from_version: u32,
    /// Schema version after.
    pub to_version: u32,
    /// Storage the chain was read from.
    pub source_storage_adapter: StorageAdapterKind,
    /// Storage the chain was written to.
    pub storage_adapter: StorageAdapterKind,
    /// Thoughts written.
    pub thought_count: u64,
    /// Where the replaced file was archived, if one was.
    pub archived_legacy_path: Option<String>,
}

/// Progress of a migration run.
#[derive(Debug, Clone, PartialEq, Eq)]
pub enum MentisDbMigrationEvent {
    /// A schema migration of a chain begins.
    Started { chain_key: String, from_version: u32, to_version: u32, current: usize, total: usize },
    /// A schema migration of a chain ended.
    Completed { chain_key: String, from_version: u32, to_version: u32, current: usize, total: usize },
    /// A chain's storage is being brought in line.
    StartedReconciliation {
        chain_key: String,
        from_storage_adapter: StorageAdapterKind,
        to_storage_adapter: StorageAdapterKind,
        current: usize,
        total: usize,
    },
    /// A chain's storage was brought in line.
    CompletedReconciliation {
        chain_key: String,
        from_storage_adapter: StorageAdapterKind,
        to_storage_adapter: StorageAdapterKind,
        current: usize,
        total: usize,
    },
    /// A chain's hashes are being recomputed.
    StartedHashRehash { chain_key: String, current: usize, total: usize },
    /// A chain's hashes were recomputed.
    CompletedHashRehash { chain_key: String, current: usize, total: usize },
}

/// The registry entry of a chain.
#[derive(Debug, Clone, PartialEq, Eq)]
pub struct MentisDbRegistration {
    /// The chain.
    pub chain_key: String,
    /// Its schema version.
    pub version: u32,
    /// Its storage.
    pub storage_adapter: StorageAdapterKind,
    /// Where its file is.
    pub storage_location: String,
    /// Its thoughts.
    pub thought_count: u64,
    /// Its agents.
    pub agent_count: usize,
    /// Its entity types.
    pub entity_type_count: usize,
    /// When it was first registered.
    pub created_at: Timestamp,
    /// When its entry last changed.
    pub updated_at: Timestamp,
}

/// The refusal of a chain kept only in the retired line-delimited format.
pub open spec fn jsonl_retired_message(chain_key: Seq<char>) -> Seq<char> {
    "JSONL chains are no longer supported for active use; please run `mentisdb migrate` first to convert chain '"@
        + chain_key + "' to binary."@
}

/// The refusal of a chain stored twice without a registry entry.
pub open spec fn conflicting_files_message(chain_key: Seq<char>) -> Seq<char> {
    "Conflicting storage files exist for chain '"@ + chain_key + "' without a registry entry"@
}

fn jsonl_retired(chain_key: &str) -> (e: ChainError)
    ensures
        e matches ChainError::Unsupported(m) && m@ == jsonl_retired_message(chain_key@),
{
    let a = concat_str(
        "JSONL chains are no longer supported for active use; please run `mentisdb migrate` first to convert chain '",
        chain_key,
    );
    ChainError::Unsupported(concat_str(a.as_str(), "' to binary."))
}

/// The storage a chain is opened with: the registered one, unless it is
/// the retired line-delimited format; without an entry, the kind of the
/// one file that exists, or `default_kind` when none does. A chain found
/// only in the retired format, or in both formats, is refused.
pub fn resolve_storage_kind_for_chain(
    chain_key: &str,
    registered: Option<StorageAdapterKind>,
    jsonl_exists: bool,
    binary_exists: bool,
    default_kind: StorageAdapterKind,
) -> (r: Result<StorageAdapterKind, ChainError>)
    ensures
        registered == Some(StorageAdapterKind::Jsonl) ==> (r matches Err(ChainError::Unsupported(m)) && m@ == jsonl_retired_message(
            chain_key@,
        )),
        registered == Some(StorageAdapterKind::Binary) ==> r == Ok::<StorageAdapterKind, ChainError>(StorageAdapterKind::Binary),
        registered is None && jsonl_exists && !binary_exists ==> (r matches Err(ChainError::Unsupported(m)) && m@
            == jsonl_retired_message(chain_key@)),
        registered is None && !jsonl_exists && binary_exists ==> r == Ok::<StorageAdapterKind, ChainError>(StorageAdapterKind::Binary),
        registered is None && !jsonl_exists && !binary_exists ==> r == Ok::<StorageAdapterKind, ChainError>(default_kind),
        registered is None && jsonl_exists && binary_exists ==> (r matches Err(ChainError::InvalidData(m)) && m@
            == conflicting_files_message(chain_key@)),
{
    match registered {
        Some(StorageAdapterKind::Jsonl) => Err(jsonl_retired(chain_key)),
        Some(k) => Ok(k),
        None => {
            if jsonl_exists && !binary_exists {
                Err(jsonl_retired(chain_key))
            } else if !jsonl_exists && binary_exists {
                Ok(StorageAdapterKind::Binary)
            } else if !jsonl_exists && !binary_exists {
                Ok(default_kind)
            } else {
                let a = concat_str("Conflicting storage files exist for chain '", chain_key);
                Err(ChainError::InvalidData(concat_str(a.as_str(), "' without a registry entry")))
            }
        },
    }
}

/// Whether a text ends with a suffix.
pub open spec fn ends_with(s: Seq<char>, suffix: Seq<char>) -> bool {
    suffix.len() <= s.len() && s.skip(s.len() - suffix.len()) == suffix
}

pub(crate) fn str_ends_with(s: &str, suffix: &str) -> (r: bool)
    ensures
        r == ends_with(s@, suffix@),
{
    let v = crate::text::chars_of(s);
    let w = crate::text::chars_of(suffix);
    if w.len() > v.len() {
        return false;
    }
    let n: usize = v.len();
    let off = n - w.len();
    let mut i: usize = 0;
    while i < w.len()
        invariant
            v@ == s@,
            w@ == suffix@,
            n == v@.len(),
            w@.len() <= v@.len(),
            off == v@.len() - w@.len(),
            i <= w@.len(),
            forall|j: int| 0 <= j < i ==> v@[off + j] == w@[j],
        decreases w@.len() - i,
    {
        if v[off + i] != w[i] {
            assert(s@.skip(off as int)[i as int] != suffix@[i as int]);
            return false;
        }
        i = i + 1;
    }
    assert(s@.skip(off as int) =~= suffix@);
    true
}

/// The chain a directory entry holds, if its name is a chain file name with
/// a non-empty key, and the storage kind its extension names.
pub open spec fn discovered(file_name: Seq<char>) -> Option<(Seq<char>, StorageAdapterKind)> {
    match key_from_filename(file_name) {
        Some(k) => if k.len() == 0 {
            None
        } else if ends_with(file_name, "jsonl"@) {
            Some((k, StorageAdapterKind::Jsonl))
        } else if ends_with(file_name, "tcbin"@) {
            Some((k, StorageAdapterKind::Binary))
        } else {
            None
        },
        None => None,
    }
}

/// Recognises a chain file by its name.
pub fn discover_chain_file(file_name: &str) -> (r: Option<(String, StorageAdapterKind)>)
    ensures
        match discovered(file_name@) {
            Some((k, kind)) => r matches Some((rk, rkind)) && rk@ == k && rkind == kind,
            None => r is None,
        },
{
    let key = match chain_key_from_storage_filename(file_name) {
        Some(k) => k,
        None => {
            return None;
        },
    };
    if key.unicode_len() == 0 {
        return None;
    }
    if str_ends_with(file_name, StorageAdapterKind::Jsonl.file_extension()) {
        Some((key, StorageAdapterKind::Jsonl))
    } else if str_ends_with(file_name, StorageAdapterKind::Binary.file_extension()) {
        Some((key, StorageAdapterKind::Binary))
    } else {
        None
    }
}

/// Whether a discovered chain still needs a schema migration: it has no
/// registry entry or its entry has an older version.
pub fn needs_schema_migration(registered_version: Option<u32>) -> (r: bool)
    ensures
        r == (match registered_version {
            Some(v) => v < MENTISDB_CURRENT_VERSION,
            None => true,
        }),
{
    match registered_version {
        Some(v) => v < MENTISDB_CURRENT_VERSION,
        None => true,
    }
}

/// Whether a registered chain of the current schema must have its storage
/// brought in line: it is registered with another storage, its file in the
/// target storage is missing or unhealthy, or other files of it exist.
pub fn chain_needs_reconciliation(
    registration: Option<(u32, StorageAdapterKind)>,
    target: StorageAdapterKind,
    expected_exists: bool,
    expected_healthy: bool,
    has_other_files: bool,
) -> (r: bool)
    ensures
        r == (match registration {
            None => false,
            Some((version, kind)) => version >= MENTISDB_CURRENT_VERSION && (kind != target || !expected_exists
                || !expected_healthy || has_other_files),
        }),
{
    match registration {
        None => false,
        Some((version, kind)) => {
            if version < MENTISDB_CURRENT_VERSION {
                return false;
            }
            if kind != target {
                return true;
            }
            if !expected_exists {
                return true;
            }
            if !expected_healthy {
                return true;
            }
            has_other_files
        },
    }
}

/// How early a copy of a chain is tried: the registered storage first, then
/// the target storage, then any other.
pub open spec fn reconciliation_rank(registered: Option<StorageAdapterKind>, kind: StorageAdapterKind, target: StorageAdapterKind) -> int {
    if registered == Some(kind) {
        0
    } else if kind == target {
        1
    } else {
        2
    }
}

/// The positions of the copies whose rank is `rank`, in their order.
pub open spec fn positions_ranked(
    registered: Option<StorageAdapterKind>,
    kinds: Seq<StorageAdapterKind>,
    target: StorageAdapterKind,
    rank: int,
) -> Seq<usize>
    decreases kinds.len(),
{
    if kinds.len() == 0 {
        Seq::empty()
    } else {
        let prev = positions_ranked(registered, kinds.drop_last(), target, rank);
        if reconciliation_rank(registered, kinds.last(), target) == rank {
            prev.push((kinds.len() - 1) as usize)
        } else {
            prev
        }
    }
}

/// The order in which the copies of a chain are tried: by rank, and in
/// their own order within a rank.
pub open spec fn reconciliation_order(registered: Option<StorageAdapterKind>, kinds: Seq<StorageAdapterKind>, target: StorageAdapterKind) -> Seq<usize> {
    positions_ranked(registered, kinds, target, 0) + positions_ranked(registered, kinds, target, 1)
        + positions_ranked(registered, kinds, target, 2)
}

fn rank_of(registered: Option<StorageAdapterKind>, kind: StorageAdapterKind, target: StorageAdapterKind) -> (r: u8)
    ensures
        r as int == reconciliation_rank(registered, kind, target),
{
    match registered {
        Some(k) if k == kind => 0,
        _ => if kind == target {
            1
        } else {
            2
        },
    }
}

fn ranked_positions(registered: Option<StorageAdapterKind>, kinds: &[StorageAdapterKind], target: StorageAdapterKind, rank: u8) -> (r: Vec<usize>)
    ensures
        r@ == positions_ranked(registered, kinds@, target, rank as int),
{
    let mut r: Vec<usize> = Vec::new();
    let mut i: usize = 0;
    while i < kinds.len()
        invariant
            i <= kinds@.len(),
            r@ == positions_ranked(registered, kinds@.take(i as int), target, rank as int),
        decreases kinds@.len() - i,
    {
        proof {
            assert(kinds@.take(i + 1).drop_last() =~= kinds@.take(i as int));
            assert(kinds@.take(i + 1).last() == kinds@[i as int]);
        }
        if rank_of(registered, kinds[i], target) == rank {
            r.push(i);
        }
        i = i + 1;
    }
    assert(kinds@.take(kinds@.len() as int) =~= kinds@);
    r
}

/// The order in which the copies of a chain, given by storage kind, are
/// tried; see [`reconciliation_order`].
pub fn order_reconciliation_candidates(
    registered: Option<StorageAdapterKind>,
    kinds: &[StorageAdapterKind],
    target: StorageAdapterKind,
) -> (r: Vec<usize>)
    ensures
        r@ == reconciliation_order(registered, kinds@, target),
{
    let mut r = ranked_positions(registered, kinds, target, 0);
    let mut b = ranked_positions(registered, kinds, target, 1);
    let mut c = ranked_positions(registered, kinds, target, 2);
    r.append(&mut b);
    r.append(&mut c);
    r
}

/// The directory, under the chain directory, where files replaced by a
/// migration between two versions are archived.
pub fn archive_dir_name(from_version: u32, to_version: u32) -> (r: String)
    ensures
        r@ == "migrations/v"@ + decimal(from_version as nat) + "_to_v"@ + decimal(to_version as nat),
{
    let a = u64_to_decimal(from_version as u64);
    let b = u64_to_decimal(to_version as u64);
    let s1 = concat_str("migrations/v", a.as_str());
    let s2 = concat_str(s1.as_str(), "_to_v");
    concat_str(s2.as_str(), b.as_str())
}

/// The registry entry a migration report leaves: the report's chain,
/// version, storage and thought count, the given location and counts, the
/// creation instant of an existing entry or `now`, and `now` as update.
pub fn registration_from_report(
    report: &MentisDbMigrationReport,
    existing_created_at: Option<Timestamp>,
    now: Timestamp,
    storage_location: String,
    agent_count: usize,
    entity_type_count: usize,
) -> (r: MentisDbRegistration)
    ensures
        r.chain_key@ == report.chain_key@,
        r.version == report.to_version,
        r.storage_adapter == report.storage_adapter,
        r.storage_location == storage_location,
        r.thought_count == report.thought_count,
        r.agent_count == agent_count,
        r.entity_type_count == entity_type_count,
        r.created_at == (match existing_created_at {
            Some(t) => t,
            None => now,
        }),
        r.updated_at == now,
{
    MentisDbRegistration {
        chain_key: report.chain_key.clone(),
        version: report.to_version,
        storage_adapter: report.storage_adapter,
        storage_location,
        thought_count: report.thought_count,
        agent_count,
        entity_type_count,
        created_at: match existing_created_at {
            Some(t) => t,
            None => now,
        },
        updated_at: now,
    }
}

/// Whether a chain may be opened under `chain_key` with `default_kind` as its
/// storage: the key must not be empty, and JSONL is no longer opened for
/// use (its chains are migrated first).
pub fn check_open_request(chain_key: &str, default_kind: StorageAdapterKind) -> (r: Result<(), ChainError>)
    ensures
        chain_key@.len() == 0 ==> (r matches Err(ChainError::InvalidInput(m)) && m@
            == "chain_key must not be empty; provide a non-empty identifier for the chain"@),
        chain_key@.len() > 0 && default_kind == StorageAdapterKind::Jsonl ==> (r matches Err(ChainError::Unsupported(m))
            && m@ == "JSONL chains are no longer supported for active use; please run `mentisdb migrate` first to convert chain '"@
            + chain_key@ + "' to binary."@),
        chain_key@.len() > 0 && default_kind == StorageAdapterKind::Binary ==> r is Ok,
{
    if chain_key.unicode_len() == 0 {
        return Err(ChainError::InvalidInput(
            String::from_str("chain_key must not be empty; provide a non-empty identifier for the chain"),
        ));
    }
    match default_kind {
        StorageAdapterKind::Jsonl => {
            let a = concat_str(
                "JSONL chains are no longer supported for active use; please run `mentisdb migrate` first to convert chain '",
                chain_key,
            );
            Err(ChainError::Unsupported(concat_str(a.as_str(), "' to binary.")))
        },
        StorageAdapterKind::Binary => Ok(()),
    }
}

/// Where a migration of a directory stands.
#[derive(Debug, Clone, Copy, PartialEq, Eq, Structural)]
pub enum MigrationPhase {
    /// Not begun.
    Idle,
    /// Migrating the schema of the chain at `at`.
    Schema,
    /// Waiting for the chains whose storage may need to be brought in line.
    Listing,
    /// Waiting for the storage the chain at `at` is read from.
    Sourcing,
    /// Bringing the storage of the chain at `at` in line.
    Applying,
    /// Every chain was handled.
    Done,
    /// A step failed; nothing more is done.
    Failed,
}

/// What the caller did or found, handed to [`MigrationDriver::step`].
pub enum MigrationInput {
    /// The chains found on disk that need a schema migration, in key order.
    Begin { pending: Vec<String> },
    /// The chain at `at` was migrated from `from_version` to `to_version`.
    SchemaMigrated { from_version: u32, to_version: u32 },
    /// The registered chains in registry order, each with whether its
    /// storage must be brought in line.
    Candidates { entries: Vec<(String, bool)> },
    /// The storage the chain at `at` will be read from.
    Source { from: StorageAdapterKind },
    /// The chain at `at` was handled; with the storages of its report when
    /// a file was rewritten.
    Reconciled { report: Option<(StorageAdapterKind, StorageAdapterKind)> },
    /// The last step failed.
    Failed,
}

/// What the caller does next.
#[derive(Debug, Clone, Copy, PartialEq, Eq, Structural)]
pub enum MigrationAction {
    /// Migrate the schema of the chain at `at`, then report `SchemaMigrated`.
    MigrateSchema,
    /// Find the registered chains and report `Candidates`.
    ListCandidates,
    /// Find the storage the chain at `at` is read from and report `Source`.
    FindSource,
    /// Bring the chain at `at` in line and report `Reconciled`.
    Reconcile,
    /// End.
    Stop,
}

/// The events to report and what to do next.
pub struct MigrationStep {
    /// Progress events, in order.
    pub events: Vec<MentisDbMigrationEvent>,
    /// What to do next.
    pub action: MigrationAction,
}

/// The state of a migration of a directory towards the storage `target`:
/// the chains of the current pass and how many of them are done.
pub struct MigrationDriver {
    /// The current phase.
    pub phase: MigrationPhase,
    /// The chains of the current pass, in order.
    pub keys: Vec<String>,
    /// How many of them are done.
    pub at: usize,
    /// The storage every chain is brought to.
    pub target: StorageAdapterKind,
}

/// Whether `ev` is the start (`started`) or the end of the schema migration
/// of `key` from `from` to `to`, as the `current`-th of `total`.
pub open spec fn schema_event(ev: MentisDbMigrationEvent, started: bool, key: Seq<char>, from: u32, to: u32, current: int, total: int) -> bool {
    if started {
        ev matches MentisDbMigrationEvent::Started { chain_key, from_version, to_version, current: c, total: t }
            && chain_key@ == key && from_version == from && to_version == to && c == current && t == total
    } else {
        ev matches MentisDbMigrationEvent::Completed { chain_key, from_version, to_version, current: c, total: t }
            && chain_key@ == key && from_version == from && to_version == to && c == current && t == total
    }
}

/// Whether `ev` is the start (`started`) or the end of bringing the storage
/// of `key` from `from` to `to`, as the `current`-th of `total`.
pub open spec fn reconcile_event(
    ev: MentisDbMigrationEvent,
    started: bool,
    key: Seq<char>,
    from: StorageAdapterKind,
    to: StorageAdapterKind,
    current: int,
    total: int,
) -> bool {
    if started {
        ev matches MentisDbMigrationEvent::StartedReconciliation {
            chain_key,
            from_storage_adapter,
            to_storage_adapter,
            current: c,
            total: t,
        } && chain_key@ == key && from_storage_adapter == from && to_storage_adapter == to && c == current && t == total
    } else {
        ev matches MentisDbMigrationEvent::CompletedReconciliation {
            chain_key,
            from_storage_adapter,
            to_storage_adapter,
            current: c,
            total: t,
        } && chain_key@ == key && from_storage_adapter == from && to_storage_adapter == to && c == current && t == total
    }
}

/// The keys of the entries that are not empty and must be brought in line,
/// in order.
pub open spec fn reconcile_keys(entries: Seq<(String, bool)>) -> Seq<Seq<char>>
    decreases entries.len(),
{
    if entries.len() == 0 {
        Seq::empty()
    } else {
        let prev = reconcile_keys(entries.drop_last());
        let e = entries.last();
        if e.0@.len() > 0 && e.1 {
            prev.push(e.0@)
        } else {
            prev
        }
    }
}

/// The keys of a list of strings.
pub open spec fn key_views(keys: Seq<String>) -> Seq<Seq<char>> {
    keys.map_values(|k: String| k@)
}

impl MigrationDriver {
    /// A migration towards `target` that has not begun.
    pub fn new(target: StorageAdapterKind) -> (r: MigrationDriver)
        ensures
            r.phase == MigrationPhase::Idle,
            r.keys@.len() == 0,
            r.at == 0,
            r.target == target,
    {
        MigrationDriver { phase: MigrationPhase::Idle, keys: Vec::new(), at: 0, target }
    }

    /// The state is consistent: the chains done are among the chains of the
    /// pass, and a chain is being handled only while one is left.
    pub open spec fn wf(&self) -> bool {
        &&& self.at <= self.keys@.len()
        &&& (self.phase is Schema || self.phase is Sourcing || self.phase is Applying) ==> self.at < self.keys@.len()
    }

    /// The key of the chain being handled.
    pub open spec fn current_key(&self) -> Seq<char> {
        self.keys@[self.at as int]@
    }

    /// Takes what the caller did or found and says what to report and what
    /// to do next. The schema pass comes first, over the chains found on
    /// disk; then the storage of every registered chain with a key that
    /// needs it is brought in line, in registry order. Each chain's start
    /// and end are reported with its place in its pass and the pass's size.
    /// A failure ends the migration, and so does an input that does not
    /// belong to the current phase.
    pub fn step(&mut self, input: MigrationInput) -> (r: MigrationStep)
        requires
            old(self).wf(),
        ensures
            final(self).wf(),
            final(self).target == old(self).target,
            input is Failed ==> (final(self).phase == MigrationPhase::Failed && r.events@.len() == 0 && r.action
                == MigrationAction::Stop),
            // Beginning: the schema pass over the pending chains, or straight to listing.
            old(self).phase is Idle ==> (input matches MigrationInput::Begin { pending } ==> {
                &&& key_views(final(self).keys@) == key_views(pending@)
                &&& final(self).at == 0
                &&& pending@.len() == 0 ==> (final(self).phase == MigrationPhase::Listing && r.events@.len() == 0
                    && r.action == MigrationAction::ListCandidates)
                &&& pending@.len() > 0 ==> (final(self).phase == MigrationPhase::Schema && r.events@.len() == 1
                    && schema_event(r.events@[0], true, pending@[0]@, 0, MENTISDB_CURRENT_VERSION, 1, pending@.len() as int)
                    && r.action == MigrationAction::MigrateSchema)
            }),
            // A schema migration done: its end, then the next chain's start or listing.
            old(self).phase is Schema ==> (input matches MigrationInput::SchemaMigrated { from_version, to_version } ==> {
                let n = old(self).keys@.len() as int;
                let k = old(self).at as int;
                &&& final(self).keys@ == old(self).keys@
                &&& final(self).at == k + 1
                &&& r.events@.len() >= 1
                &&& schema_event(r.events@[0], false, old(self).current_key(), from_version, to_version, k + 1, n)
                &&& k + 1 < n ==> (final(self).phase == MigrationPhase::Schema && r.events@.len() == 2
                    && schema_event(r.events@[1], true, old(self).keys@[k + 1]@, 0, MENTISDB_CURRENT_VERSION, k + 2, n)
                    && r.action == MigrationAction::MigrateSchema)
                &&& k + 1 == n ==> (final(self).phase == MigrationPhase::Listing && r.events@.len() == 1
                    && r.action == MigrationAction::ListCandidates)
            }),
            // The candidates: the reconciliation pass over those that need it.
            old(self).phase is Listing ==> (input matches MigrationInput::Candidates { entries } ==> {
                &&& key_views(final(self).keys@) == reconcile_keys(entries@)
                &&& final(self).at == 0
                &&& r.events@.len() == 0
                &&& reconcile_keys(entries@).len() == 0 ==> (final(self).phase == MigrationPhase::Done && r.action
                    == MigrationAction::Stop)
                &&& reconcile_keys(entries@).len() > 0 ==> (final(self).phase == MigrationPhase::Sourcing && r.action
                    == MigrationAction::FindSource)
            }),
            // The source found: the chain's start, then the reconciliation itself.
            old(self).phase is Sourcing ==> (input matches MigrationInput::Source { from } ==> {
                &&& final(self).keys@ == old(self).keys@
                &&& final(self).at == old(self).at
                &&& final(self).phase == MigrationPhase::Applying
                &&& r.events@.len() == 1
                &&& reconcile_event(r.events@[0], true, old(self).current_key(), from, old(self).target,
                    old(self).at + 1, old(self).keys@.len() as int)
                &&& r.action == MigrationAction::Reconcile
            }),
            // A chain handled: its end when a file was rewritten, then the next chain or the end.
            old(self).phase is Applying ==> (input matches MigrationInput::Reconciled { report } ==> {
                let n = old(self).keys@.len() as int;
                let k = old(self).at as int;
                &&& final(self).keys@ == old(self).keys@
                &&& final(self).at == k + 1
                &&& report is None ==> r.events@.len() == 0
                &&& report matches Some((from, to)) ==> (r.events@.len() == 1 && reconcile_event(
                    r.events@[0], false, old(self).current_key(), from, to, k + 1, n))
                &&& k + 1 < n ==> (final(self).phase == MigrationPhase::Sourcing && r.action == MigrationAction::FindSource)
                &&& k + 1 == n ==> (final(self).phase == MigrationPhase::Done && r.action == MigrationAction::Stop)
            }),
            // Anything else ends the migration as a failure.
            !(input is Failed) && !(old(self).phase is Idle && input is Begin) && !(old(self).phase is Schema
                && input is SchemaMigrated) && !(old(self).phase is Listing && input is Candidates) && !(old(self).phase
                is Sourcing && input is Source) && !(old(self).phase is Applying && input is Reconciled) ==> (
            final(self).phase == MigrationPhase::Failed && r.events@.len() == 0 && r.action == MigrationAction::Stop),
    {
        match (self.phase, input) {
            (MigrationPhase::Idle, MigrationInput::Begin { pending }) => {
                self.keys = pending;
                self.at = 0;
                if self.keys.len() == 0 {
                    self.phase = MigrationPhase::Listing;
                    MigrationStep { events: Vec::new(), action: MigrationAction::ListCandidates }
                } else {
                    self.phase = MigrationPhase::Schema;
                    let mut events = Vec::new();
                    events.push(MentisDbMigrationEvent::Started {
                        chain_key: self.keys[0].clone(),
                        from_version: 0,
                        to_version: MENTISDB_CURRENT_VERSION,
                        current: 1,
                        total: self.keys.len(),
                    });
                    MigrationStep { events, action: MigrationAction::MigrateSchema }
                }
            },
            (MigrationPhase::Schema, MigrationInput::SchemaMigrated { from_version, to_version }) => {
                let n = self.keys.len();
                let k = self.at;
                let mut events = Vec::new();
                events.push(MentisDbMigrationEvent::Completed {
                    chain_key: self.keys[k].clone(),
                    from_version,
                    to_version,
                    current: k + 1,
                    total: n,
                });
                self.at = k + 1;
                if k + 1 < n {
                    events.push(MentisDbMigrationEvent::Started {
                        chain_key: self.keys[k + 1].clone(),
                        from_version: 0,
                        to_version: MENTISDB_CURRENT_VERSION,
                        current: k + 2,
                        total: n,
                    });
                    MigrationStep { events, action: MigrationAction::MigrateSchema }
                } else {
                    self.phase = MigrationPhase::Listing;
                    MigrationStep { events, action: MigrationAction::ListCandidates }
                }
            },
            (MigrationPhase::Listing, MigrationInput::Candidates { entries }) => {
                let keys = reconcile_key_list(&entries);
                self.keys = keys;
                self.at = 0;
                if self.keys.len() == 0 {
                    self.phase = MigrationPhase::Done;
                    MigrationStep { events: Vec::new(), action: MigrationAction::Stop }
                } else {
                    self.phase = MigrationPhase::Sourcing;
                    MigrationStep { events: Vec::new(), action: MigrationAction::FindSource }
                }
            },
            (MigrationPhase::Sourcing, MigrationInput::Source { from }) => {
                let n = self.keys.len();
                assert(self.at < n);
                self.phase = MigrationPhase::Applying;
                let mut events = Vec::new();
                events.push(MentisDbMigrationEvent::StartedReconciliation {
                    chain_key: self.keys[self.at].clone(),
                    from_storage_adapter: from,
                    to_storage_adapter: self.target,
                    current: self.at + 1,
                    total: n,
                });
                MigrationStep { events, action: MigrationAction::Reconcile }
            },
            (MigrationPhase::Applying, MigrationInput::Reconciled { report }) => {
                let n = self.keys.len();
                let k = self.at;
                let mut events = Vec::new();
                if let Some((from, to)) = report {
                    events.push(MentisDbMigrationEvent::CompletedReconciliation {
                        chain_key: self.keys[k].clone(),
                        from_storage_adapter: from,
                        to_storage_adapter: to,
                        current: k + 1,
                        total: n,
                    });
                }
                self.at = k + 1;
                if k + 1 < n {
                    self.phase = MigrationPhase::Sourcing;
                    MigrationStep { events, action: MigrationAction::FindSource }
                } else {
                    self.phase = MigrationPhase::Done;
                    MigrationStep { events, action: MigrationAction::Stop }
                }
            },
            (_, _) => {
                self.phase = MigrationPhase::Failed;
                MigrationStep { events: Vec::new(), action: MigrationAction::Stop }
            },
        }
    }
}

/// The keys of the entries that are not empty and must be brought in line.
fn reconcile_key_list(entries: &Vec<(String, bool)>) -> (r: Vec<String>)
    ensures
        key_views(r@) == reconcile_keys(entries@),
{
    let mut r: Vec<String> = Vec::new();
    let mut i: usize = 0;
    while i < entries.len()
        invariant
            i <= entries@.len(),
            key_views(r@) == reconcile_keys(entries@.take(i as int)),
        decreases entries@.len() - i,
    {
        let ghost before = r@;
        if entries[i].0.unicode_len() > 0 && entries[i].1 {
            r.push(entries[i].0.clone());
            assert(key_views(r@) =~= key_views(before).push(entries@[i as int].0@));
        }
        assert(entries@.take(i + 1).drop_last() =~= entries@.take(i as int));
        i = i + 1;
    }
    assert(entries@.take(entries@.len() as int) =~= entries@);
    r
}

} // verus!
