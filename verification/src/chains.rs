//! The registry of the chains of a directory, kept in key order, and the
//! updates that opening, migrating and removing chains make to it.
use vstd::prelude::*;
use crate::kinds::{StorageAdapterKind, MENTISDB_CURRENT_VERSION};
use crate::migration::{MentisDbMigrationEvent, MentisDbMigrationReport, MentisDbRegistration};
use crate::model::Timestamp;
use crate::markdown::{starts_with, starts_with_chars};
use crate::migration::{ends_with, str_ends_with};
use crate::text::{chars_of, concat_str, lex_lt, str_eq, str_lt};

verus! {

/// The registry of a directory's chains, ordered by chain key.
pub struct MentisDbRegistry {
    /// Version of the registry file itself.
    pub version: u32,
    /// Entries in strictly increasing order of chain key.
    pub chains: Vec<MentisDbRegistration>,
}

/// `after` holds `entry` under its key and otherwise what `before` holds.
pub open spec fn chain_stored(before: MentisDbRegistry, after: MentisDbRegistry, entry: MentisDbRegistration) -> bool {
    &&& forall|k: Seq<char>| #[trigger] after.has(k) <==> (before.has(k) || k == entry.chain_key@)
    &&& after.lookup(entry.chain_key@) == Some(entry)
    &&& forall|k: Seq<char>| k != entry.chain_key@ ==> #[trigger] after.lookup(k) == before.lookup(k)
    &&& after.version == before.version
}

impl MentisDbRegistry {
    /// Entries are sorted by key with no key twice.
    pub open spec fn wf(&self) -> bool {
        forall|i: int, j: int|
            0 <= i < j < self.chains@.len() ==> lex_lt(
                #[trigger] self.chains@[i].chain_key@,
                #[trigger] self.chains@[j].chain_key@,
            )
    }

    /// Whether an entry with this key exists.
    pub open spec fn has(&self, chain_key: Seq<char>) -> bool {
        exists|i: int| 0 <= i < self.chains@.len() && (#[trigger] self.chains@[i]).chain_key@ == chain_key
    }

    /// A position holding an entry with this key, when there is one.
    pub open spec fn position_of(&self, chain_key: Seq<char>) -> int {
        choose|i: int| 0 <= i < self.chains@.len() && (#[trigger] self.chains@[i]).chain_key@ == chain_key
    }

    /// The entry with this key, if any.
    pub open spec fn lookup(&self, chain_key: Seq<char>) -> Option<MentisDbRegistration> {
        if self.has(chain_key) {
            Some(self.chains@[self.position_of(chain_key)])
        } else {
            None
        }
    }

    /// In a well-formed registry, the key of an entry finds that entry.
    pub proof fn lemma_lookup_at(&self, i: int)
        requires
            self.wf(),
            0 <= i < self.chains@.len(),
        ensures
            self.lookup(self.chains@[i].chain_key@) == Some(self.chains@[i]),
    {
        let key = self.chains@[i].chain_key@;
        assert(self.has(key));
        let c = self.position_of(key);
        if c < i {
            assert(lex_lt(self.chains@[c].chain_key@, self.chains@[i].chain_key@));
            crate::text::lemma_lex_lt_irreflexive(key);
        } else if c > i {
            assert(lex_lt(self.chains@[i].chain_key@, self.chains@[c].chain_key@));
            crate::text::lemma_lex_lt_irreflexive(key);
        }
    }

    /// An empty registry of the given file version.
    pub fn new(version: u32) -> (r: MentisDbRegistry)
        ensures
            r.wf(),
            r.version == version,
            r.chains@.len() == 0,
    {
        MentisDbRegistry { version, chains: Vec::new() }
    }

    /// Position of the entry with this key, or of the place where it would go.
    pub fn search(&self, chain_key: &str) -> (r: Result<usize, usize>)
        requires
            self.wf(),
        ensures
            r matches Ok(i) ==> i < self.chains@.len() && self.chains@[i as int].chain_key@ == chain_key@,
            r matches Err(i) ==> i <= self.chains@.len() && !self.has(chain_key@) && (forall|j: int|
                0 <= j < i ==> lex_lt(#[trigger] self.chains@[j].chain_key@, chain_key@)) && (forall|j: int|
                i <= j < self.chains@.len() ==> lex_lt(chain_key@, #[trigger] self.chains@[j].chain_key@)),
    {
        let mut i: usize = 0;
        while i < self.chains.len() && str_lt(self.chains[i].chain_key.as_str(), chain_key)
            invariant
                self.wf(),
                i <= self.chains@.len(),
                forall|j: int| 0 <= j < i ==> lex_lt(#[trigger] self.chains@[j].chain_key@, chain_key@),
            decreases self.chains@.len() - i,
        {
            i = i + 1;
        }
        if i < self.chains.len() && str_eq(self.chains[i].chain_key.as_str(), chain_key) {
            return Ok(i);
        }
        proof {
            assert forall|j: int| i <= j < self.chains@.len() implies lex_lt(
                chain_key@,
                #[trigger] self.chains@[j].chain_key@,
            ) by {
                crate::text::lemma_lex_lt_total(chain_key@, self.chains@[i as int].chain_key@);
                if j > i {
                    crate::text::lemma_lex_lt_transitive(
                        chain_key@,
                        self.chains@[i as int].chain_key@,
                        self.chains@[j].chain_key@,
                    );
                }
            }
            assert forall|j: int| 0 <= j < self.chains@.len() implies (#[trigger] self.chains@[j]).chain_key@
                != chain_key@ by {
                crate::text::lemma_lex_lt_irreflexive(chain_key@);
            }
        }
        Err(i)
    }

    /// The entry with this key, if any.
    pub fn get(&self, chain_key: &str) -> (r: Option<&MentisDbRegistration>)
        requires
            self.wf(),
        ensures
            r matches Some(e) ==> self.lookup(chain_key@) == Some(*e),
            r is None ==> self.lookup(chain_key@) is None,
    {
        match self.search(chain_key) {
            Ok(i) => {
                proof {
                    self.lemma_lookup_at(i as int);
                }
                Some(&self.chains[i])
            },
            Err(_) => None,
        }
    }

    /// Stores an entry under its key, replacing the entry with that key or
    /// inserting it in key order.
    pub fn upsert(&mut self, entry: MentisDbRegistration)
        requires
            old(self).wf(),
        ensures
            final(self).wf(),
            chain_stored(*old(self), *final(self), entry),
    {
        let ghost e = entry;
        match self.search(entry.chain_key.as_str()) {
            Ok(i) => {
                self.chains.set(i, entry);
                proof {
                    assert forall|a: int, b: int| 0 <= a < b < self.chains@.len() implies lex_lt(
                        #[trigger] self.chains@[a].chain_key@,
                        #[trigger] self.chains@[b].chain_key@,
                    ) by {
                        assert(old(self).chains@[a].chain_key@ == self.chains@[a].chain_key@);
                        assert(old(self).chains@[b].chain_key@ == self.chains@[b].chain_key@);
                    }
                    assert forall|k: Seq<char>| #[trigger] self.has(k) <==> (old(self).has(k) || k == e.chain_key@) by {
                        if self.has(k) {
                            let j = choose|j: int| 0 <= j < self.chains@.len() && (#[trigger] self.chains@[j]).chain_key@ == k;
                            assert(old(self).chains@[j].chain_key@ == k);
                        }
                        if old(self).has(k) {
                            let j = choose|j: int| 0 <= j < old(self).chains@.len() && (#[trigger] old(self).chains@[j]).chain_key@ == k;
                            assert(self.chains@[j].chain_key@ == k);
                        }
                        if k == e.chain_key@ {
                            assert(self.chains@[i as int].chain_key@ == k);
                        }
                    }
                    self.lemma_lookup_at(i as int);
                    assert forall|k: Seq<char>| k != e.chain_key@ implies #[trigger] self.lookup(k) == old(self).lookup(k) by {
                        if self.has(k) {
                            let j = choose|j: int| 0 <= j < self.chains@.len() && (#[trigger] self.chains@[j]).chain_key@ == k;
                            self.lemma_lookup_at(j);
                            old(self).lemma_lookup_at(j);
                        } else {
                            assert(!old(self).has(k));
                        }
                    }
                }
            },
            Err(i) => {
                self.chains.insert(i, entry);
                proof {
                    assert forall|a: int, b: int| 0 <= a < b < self.chains@.len() implies lex_lt(
                        #[trigger] self.chains@[a].chain_key@,
                        #[trigger] self.chains@[b].chain_key@,
                    ) by {
                        if a < i && b > i {
                            crate::text::lemma_lex_lt_transitive(
                                self.chains@[a].chain_key@,
                                self.chains@[i as int].chain_key@,
                                self.chains@[b].chain_key@,
                            );
                        }
                    }
                    assert forall|k: Seq<char>| #[trigger] self.has(k) <==> (old(self).has(k) || k == e.chain_key@) by {
                        if self.has(k) {
                            let j = choose|j: int| 0 <= j < self.chains@.len() && (#[trigger] self.chains@[j]).chain_key@ == k;
                            if j < i {
                                assert(old(self).chains@[j].chain_key@ == k);
                            } else if j > i {
                                assert(old(self).chains@[j - 1].chain_key@ == k);
                            }
                        }
                        if old(self).has(k) {
                            let j = choose|j: int| 0 <= j < old(self).chains@.len() && (#[trigger] old(self).chains@[j]).chain_key@ == k;
                            if j < i {
                                assert(self.chains@[j].chain_key@ == k);
                            } else {
                                assert(self.chains@[j + 1].chain_key@ == k);
                            }
                        }
                        if k == e.chain_key@ {
                            assert(self.chains@[i as int].chain_key@ == k);
                        }
                    }
                    self.lemma_lookup_at(i as int);
                    assert forall|k: Seq<char>| k != e.chain_key@ implies #[trigger] self.lookup(k) == old(self).lookup(k) by {
                        if self.has(k) {
                            let j = choose|j: int| 0 <= j < self.chains@.len() && (#[trigger] self.chains@[j]).chain_key@ == k;
                            self.lemma_lookup_at(j);
                            if j < i {
                                old(self).lemma_lookup_at(j);
                            } else {
                                assert(j != i);
                                old(self).lemma_lookup_at(j - 1);
                            }
                        } else {
                            assert(!old(self).has(k));
                        }
                    }
                }
            },
        }
    }

    /// Removes the entry with this key and gives it back; a key without an
    /// entry changes nothing.
    pub fn remove(&mut self, chain_key: &str) -> (r: Option<MentisDbRegistration>)
        requires
            old(self).wf(),
        ensures
            final(self).wf(),
            r == old(self).lookup(chain_key@),
            forall|k: Seq<char>| #[trigger] final(self).has(k) <==> (old(self).has(k) && k != chain_key@),
            forall|k: Seq<char>| k != chain_key@ ==> #[trigger] final(self).lookup(k) == old(self).lookup(k),
            final(self).version == old(self).version,
    {
        match self.search(chain_key) {
            Ok(i) => {
                proof {
                    old(self).lemma_lookup_at(i as int);
                }
                let e = self.chains.remove(i);
                proof {
                    assert forall|a: int, b: int| 0 <= a < b < self.chains@.len() implies lex_lt(
                        #[trigger] self.chains@[a].chain_key@,
                        #[trigger] self.chains@[b].chain_key@,
                    ) by {
                        let a0 = if a < i { a } else { a + 1 };
                        let b0 = if b < i { b } else { b + 1 };
                        assert(self.chains@[a] == old(self).chains@[a0]);
                        assert(self.chains@[b] == old(self).chains@[b0]);
                    }
                    assert forall|k: Seq<char>| #[trigger] self.has(k) <==> (old(self).has(k) && k != chain_key@) by {
                        if self.has(k) {
                            let j = choose|j: int| 0 <= j < self.chains@.len() && (#[trigger] self.chains@[j]).chain_key@ == k;
                            let j0 = if j < i { j } else { j + 1 };
                            assert(old(self).chains@[j0].chain_key@ == k);
                            if k == chain_key@ {
                                assert(j0 != i);
                                if j0 < i {
                                    assert(lex_lt(old(self).chains@[j0].chain_key@, old(self).chains@[i as int].chain_key@));
                                } else {
                                    assert(lex_lt(old(self).chains@[i as int].chain_key@, old(self).chains@[j0].chain_key@));
                                }
                                crate::text::lemma_lex_lt_irreflexive(k);
                            }
                        }
                        if old(self).has(k) && k != chain_key@ {
                            let j = choose|j: int| 0 <= j < old(self).chains@.len() && (#[trigger] old(self).chains@[j]).chain_key@ == k;
                            assert(j != i);
                            if j < i {
                                assert(self.chains@[j].chain_key@ == k);
                            } else {
                                assert(self.chains@[j - 1].chain_key@ == k);
                            }
                        }
                    }
                    assert forall|k: Seq<char>| k != chain_key@ implies #[trigger] self.lookup(k) == old(self).lookup(k) by {
                        if self.has(k) {
                            let j = choose|j: int| 0 <= j < self.chains@.len() && (#[trigger] self.chains@[j]).chain_key@ == k;
                            self.lemma_lookup_at(j);
                            let j0 = if j < i { j } else { j + 1 };
                            assert(self.chains@[j] == old(self).chains@[j0]);
                            old(self).lemma_lookup_at(j0);
                        } else {
                            assert(!old(self).has(k));
                        }
                    }
                }
                Some(e)
            },
            Err(_) => None,
        }
    }

    /// Records the state of an open chain: the current schema version, the
    /// given storage, location and counts, the creation instant of an
    /// existing entry or `now`, and `now` as update instant.
    pub fn register_chain(
        &mut self,
        chain_key: &str,
        storage_adapter: StorageAdapterKind,
        storage_location: String,
        thought_count: u64,
        agent_count: usize,
        entity_type_count: usize,
        now: Timestamp,
    )
        requires
            old(self).wf(),
        ensures
            final(self).wf(),
            exists|e: MentisDbRegistration|
                {
                    &&& #[trigger] chain_stored(*old(self), *final(self), e)
                    &&& e.chain_key@ == chain_key@
                    &&& e.version == MENTISDB_CURRENT_VERSION
                    &&& e.storage_adapter == storage_adapter
                    &&& e.storage_location == storage_location
                    &&& e.thought_count == thought_count
                    &&& e.agent_count == agent_count
                    &&& e.entity_type_count == entity_type_count
                    &&& e.created_at == match old(self).lookup(chain_key@) {
                        Some(prev) => prev.created_at,
                        None => now,
                    }
                    &&& e.updated_at == now
                },
    {
        let created_at = match self.get(chain_key) {
            Some(prev) => prev.created_at,
            None => now,
        };
        let entry = MentisDbRegistration {
            chain_key: String::from_str(chain_key),
            version: MENTISDB_CURRENT_VERSION,
            storage_adapter,
            storage_location,
            thought_count,
            agent_count,
            entity_type_count,
            created_at,
            updated_at: now,
        };
        let ghost e = entry;
        self.upsert(entry);
        assert(chain_stored(*old(self), *self, e));
    }

    /// Records the outcome of a migration, as
    /// [`crate::migration::registration_from_report`] builds it from the
    /// existing entry's creation instant.
    pub fn register_report(
        &mut self,
        report: &MentisDbMigrationReport,
        storage_location: String,
        agent_count: usize,
        entity_type_count: usize,
        now: Timestamp,
    )
        requires
            old(self).wf(),
        ensures
            final(self).wf(),
            exists|e: MentisDbRegistration|
                {
                    &&& #[trigger] chain_stored(*old(self), *final(self), e)
                    &&& e.chain_key@ == report.chain_key@
                    &&& e.version == report.to_version
                    &&& e.storage_adapter == report.storage_adapter
                    &&& e.storage_location == storage_location
                    &&& e.thought_count == report.thought_count
                    &&& e.agent_count == agent_count
                    &&& e.entity_type_count == entity_type_count
                    &&& e.created_at == match old(self).lookup(report.chain_key@) {
                        Some(prev) => prev.created_at,
                        None => now,
                    }
                    &&& e.updated_at == now
                },
    {
        let existing = match self.get(report.chain_key.as_str()) {
            Some(prev) => Some(prev.created_at),
            None => None,
        };
        let entry = crate::migration::registration_from_report(
            report,
            existing,
            now,
            storage_location,
            agent_count,
            entity_type_count,
        );
        let ghost e = entry;
        self.upsert(entry);
        assert(chain_stored(*old(self), *self, e));
    }

    /// The chains a hash rehash must open: those with a non-empty key whose
    /// file still carries legacy hashes (`uses_legacy_hashes`, one flag per
    /// entry), with their storage, in key order.
    pub fn hash_rehash_candidates(&self, uses_legacy_hashes: &[bool]) -> (r: Vec<(String, StorageAdapterKind)>)
        requires
            uses_legacy_hashes@.len() == self.chains@.len(),
        ensures
            r@.len() == rehash_positions(self.chains@, uses_legacy_hashes@, self.chains@.len() as int).len(),
            forall|i: int|
                0 <= i < r@.len() ==> {
                    let p = rehash_positions(self.chains@, uses_legacy_hashes@, self.chains@.len() as int)[i];
                    &&& (#[trigger] r@[i]).0@ == self.chains@[p].chain_key@
                    &&& r@[i].1 == self.chains@[p].storage_adapter
                },
    {
        let mut r: Vec<(String, StorageAdapterKind)> = Vec::new();
        let mut i: usize = 0;
        while i < self.chains.len()
            invariant
                uses_legacy_hashes@.len() == self.chains@.len(),
                i <= self.chains@.len(),
                r@.len() == rehash_positions(self.chains@, uses_legacy_hashes@, i as int).len(),
                forall|j: int|
                    0 <= j < r@.len() ==> {
                        let p = rehash_positions(self.chains@, uses_legacy_hashes@, i as int)[j];
                        &&& (#[trigger] r@[j]).0@ == self.chains@[p].chain_key@
                        &&& r@[j].1 == self.chains@[p].storage_adapter
                    },
                forall|j: int|
                    0 <= j < rehash_positions(self.chains@, uses_legacy_hashes@, i as int).len() ==> 0
                        <= #[trigger] rehash_positions(self.chains@, uses_legacy_hashes@, i as int)[j] < i,
            decreases self.chains@.len() - i,
        {
            let e = &self.chains[i];
            if e.chain_key.unicode_len() > 0 && uses_legacy_hashes[i] {
                r.push((e.chain_key.clone(), e.storage_adapter));
            }
            i = i + 1;
        }
        r
    }
}

/// The positions among the first `n` entries that a hash rehash opens.
pub open spec fn rehash_positions(chains: Seq<MentisDbRegistration>, uses_legacy_hashes: Seq<bool>, n: int) -> Seq<int>
    decreases n,
{
    if n <= 0 {
        Seq::empty()
    } else {
        let prev = rehash_positions(chains, uses_legacy_hashes, n - 1);
        if chains[n - 1].chain_key@.len() > 0 && uses_legacy_hashes[n - 1] {
            prev.push(n - 1)
        } else {
            prev
        }
    }
}

impl MentisDbRegistration {
    /// Brings the counts of an entry in line with the live chain, when both
    /// live counts are known and one differs, stamping `now`; reports
    /// whether the entry changed.
    pub fn refresh_counts(&mut self, live_thoughts: Option<u64>, live_agents: Option<usize>, now: Timestamp) -> (changed: bool)
        ensures
            changed == (live_thoughts matches Some(t) && live_agents matches Some(a) && (old(self).thought_count != t
                || old(self).agent_count != a)),
            changed ==> *final(self) == (MentisDbRegistration {
                thought_count: live_thoughts->0,
                agent_count: live_agents->0,
                updated_at: now,
                ..*old(self)
            }),
            !changed ==> *final(self) == *old(self),
    {
        match (live_thoughts, live_agents) {
            (Some(t), Some(a)) => {
                if self.thought_count != t || self.agent_count != a {
                    self.thought_count = t;
                    self.agent_count = a;
                    self.updated_at = now;
                    true
                } else {
                    false
                }
            },
            _ => false,
        }
    }
}


/// Whether removing a chain whose storage file name without extension is
/// `stem` also removes the directory entry `file_name`: one of its vector
/// sidecars (`<stem>.vectors.*.json`) or its derived edge file
/// (`<stem>.auto_edges.bin`).
pub open spec fn removed_with_chain(stem: Seq<char>, file_name: Seq<char>) -> bool {
    ||| starts_with(file_name, stem + ".vectors."@) && ends_with(file_name, ".json"@)
    ||| file_name == stem + ".auto_edges.bin"@
}

/// Decides [`removed_with_chain`].
pub fn is_removed_with_chain(stem: &str, file_name: &str) -> (r: bool)
    ensures
        r == removed_with_chain(stem@, file_name@),
{
    let prefix = concat_str(stem, ".vectors.");
    let chars = chars_of(file_name);
    if starts_with_chars(chars.as_slice(), prefix.as_str()) && str_ends_with(file_name, ".json") {
        return true;
    }
    let edges = concat_str(stem, ".auto_edges.bin");
    str_eq(file_name, edges.as_str())
}

/// Whether `ev` reports the start (`started`) or end of the rehash of
/// `key`, as the `current`-th of `total`.
pub open spec fn rehash_event(ev: MentisDbMigrationEvent, started: bool, key: Seq<char>, current: int, total: int) -> bool {
    if started {
        ev matches MentisDbMigrationEvent::StartedHashRehash { chain_key, current: c, total: t } && chain_key@ == key
            && c == current && t == total
    } else {
        ev matches MentisDbMigrationEvent::CompletedHashRehash { chain_key, current: c, total: t } && chain_key@ == key
            && c == current && t == total
    }
}

/// The progress events of a hash rehash of `candidates`, in order: for the
/// `i`-th chain (counting from one) a start and then an end, each carrying
/// its key, `i` and the number of chains.
pub fn rehash_events(candidates: &[(String, StorageAdapterKind)]) -> (r: Vec<MentisDbMigrationEvent>)
    ensures
        r@.len() == 2 * candidates@.len(),
        forall|i: int| 0 <= i < candidates@.len() ==> {
            &&& rehash_event(#[trigger] r@[2 * i], true, candidates@[i].0@, i + 1, candidates@.len() as int)
            &&& rehash_event(r@[2 * i + 1], false, candidates@[i].0@, i + 1, candidates@.len() as int)
        },
{
    let n = candidates.len();
    let mut r: Vec<MentisDbMigrationEvent> = Vec::new();
    let mut i: usize = 0;
    while i < n
        invariant
            n == candidates@.len(),
            i <= n,
            r@.len() == 2 * i,
            forall|j: int| 0 <= j < i ==> {
                &&& rehash_event(#[trigger] r@[2 * j], true, candidates@[j].0@, j + 1, n as int)
                &&& rehash_event(r@[2 * j + 1], false, candidates@[j].0@, j + 1, n as int)
            },
        decreases n - i,
    {
        let key = &candidates[i].0;
        r.push(MentisDbMigrationEvent::StartedHashRehash { chain_key: key.clone(), current: i + 1, total: n });
        r.push(MentisDbMigrationEvent::CompletedHashRehash { chain_key: key.clone(), current: i + 1, total: n });
        proof {
            assert(r@[2 * (i as int)] == r@[r@.len() - 2]);
        }
        i = i + 1;
    }
    r
}

} // verus!
