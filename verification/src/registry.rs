//! Per-chain registries of the agents that wrote thoughts and of the entity
//! types observed on them, kept in key order.
use vstd::prelude::*;
use crate::kinds::{AgentStatus, PublicKeyAlgorithm};
use crate::model::{opt_view, trim_optional, trimmed_non_empty, Timestamp};
use crate::text::{eq_ignore_ascii_case, equals_case_insensitive, lex_lt, str_eq, str_lt, trim, trim_str};

verus! {

/// A public verification key registered for an agent.
#[derive(Debug, Clone, PartialEq, Eq)]
pub struct AgentPublicKey {
    /// Stable identifier of the key.
    pub key_id: String,
    /// Algorithm of the key.
    pub algorithm: PublicKeyAlgorithm,
    /// Raw public-key bytes.
    pub public_key_bytes: Vec<u8>,
    /// Registration instant.
    pub added_at: Timestamp,
    /// Revocation instant, if revoked.
    pub revoked_at: Option<Timestamp>,
}

/// Registry entry describing one durable agent identity.
#[derive(Debug, Clone, PartialEq, Eq)]
pub struct AgentRecord {
    /// Stable producer identifier used in thoughts.
    pub agent_id: String,
    /// Friendly display label.
    pub display_name: String,
    /// Owner, tenant or grouping label.
    pub owner: Option<String>,
    /// Summary of what the agent does.
    pub description: Option<String>,
    /// Earlier display names.
    pub aliases: Vec<String>,
    /// Registered verification keys.
    pub public_keys: Vec<AgentPublicKey>,
    /// Lifecycle status.
    pub status: AgentStatus,
    /// First thought index observed for the agent.
    pub first_seen_index: Option<u64>,
    /// Most recent thought index observed for the agent.
    pub last_seen_index: Option<u64>,
    /// First observed instant.
    pub first_seen_at: Option<Timestamp>,
    /// Most recent observed instant.
    pub last_seen_at: Option<Timestamp>,
    /// Number of thoughts attributed to the agent.
    pub thought_count: u64,
}

/// Whether `name` equals, ignoring ASCII case, one of `aliases`.
pub open spec fn is_known_alias(aliases: Seq<String>, name: Seq<char>) -> bool {
    exists|i: int| 0 <= i < aliases.len() && eq_ignore_ascii_case((#[trigger] aliases[i])@, name)
}

fn alias_known(aliases: &Vec<String>, name: &str) -> (r: bool)
    ensures
        r == is_known_alias(aliases@, name@),
{
    let mut i: usize = 0;
    while i < aliases.len()
        invariant
            i <= aliases@.len(),
            forall|j: int| 0 <= j < i ==> !eq_ignore_ascii_case((#[trigger] aliases@[j])@, name@),
        decreases aliases@.len() - i,
    {
        if equals_case_insensitive(aliases[i].as_str(), name) {
            return true;
        }
        i = i + 1;
    }
    false
}

impl AgentRecord {
    /// A record created by an explicit registry update, before any thought.
    pub fn stub(agent_id: &str) -> (r: AgentRecord)
        ensures
            r.agent_id@ == agent_id@,
            r.display_name@ == agent_id@,
            r.owner is None,
            r.description is None,
            r.aliases@.len() == 0,
            r.public_keys@.len() == 0,
            r.status == AgentStatus::Active,
            r.first_seen_index is None,
            r.last_seen_index is None,
            r.first_seen_at is None,
            r.last_seen_at is None,
            r.thought_count == 0,
    {
        AgentRecord {
            agent_id: String::from_str(agent_id),
            display_name: String::from_str(agent_id),
            owner: None,
            description: None,
            aliases: Vec::new(),
            public_keys: Vec::new(),
            status: AgentStatus::Active,
            first_seen_index: None,
            last_seen_index: None,
            first_seen_at: None,
            last_seen_at: None,
            thought_count: 0,
        }
    }

    /// A record created by the first thought of an agent.
    pub fn new(
        agent_id: &str,
        display_name: &str,
        owner: Option<&str>,
        index: u64,
        timestamp: Timestamp,
    ) -> (r: AgentRecord)
        ensures
            r.agent_id@ == agent_id@,
            r.display_name@ == if trim(display_name@).len() == 0 {
                agent_id@
            } else {
                trim(display_name@)
            },
            opt_view(r.owner) == trimmed_non_empty(
                match owner {
                    Some(o) => Some(o@),
                    None => None,
                },
            ),
            r.description is None,
            r.aliases@.len() == 0,
            r.public_keys@.len() == 0,
            r.status == AgentStatus::Active,
            r.first_seen_index == Some(index),
            r.last_seen_index == Some(index),
            r.first_seen_at == Some(timestamp),
            r.last_seen_at == Some(timestamp),
            r.thought_count == 1,
    {
        let t = trim_str(display_name);
        let name = if t.unicode_len() == 0 {
            String::from_str(agent_id)
        } else {
            t
        };
        AgentRecord {
            agent_id: String::from_str(agent_id),
            display_name: name,
            owner: trim_optional(owner),
            description: None,
            aliases: Vec::new(),
            public_keys: Vec::new(),
            status: AgentStatus::Active,
            first_seen_index: Some(index),
            last_seen_index: Some(index),
            first_seen_at: Some(timestamp),
            last_seen_at: Some(timestamp),
            thought_count: 1,
        }
    }

    /// Records one more thought of the agent. A new display name that is
    /// neither the current one nor a known alias (ignoring ASCII case)
    /// replaces it, and the old one becomes an alias; an owner is filled in
    /// only when none is set.
    pub fn observe(
        &mut self,
        display_name: Option<&str>,
        owner: Option<&str>,
        index: u64,
        timestamp: Timestamp,
    )
        requires
            old(self).thought_count < u64::MAX,
        ensures
            final(self).agent_id == old(self).agent_id,
            final(self).description == old(self).description,
            final(self).public_keys == old(self).public_keys,
            final(self).status == old(self).status,
            final(self).first_seen_index == old(self).first_seen_index,
            final(self).first_seen_at == old(self).first_seen_at,
            final(self).last_seen_index == Some(index),
            final(self).last_seen_at == Some(timestamp),
            final(self).thought_count == old(self).thought_count + 1,
            ({
                let dn = trimmed_non_empty(
                    match display_name {
                        Some(d) => Some(d@),
                        None => None,
                    },
                );
                match dn {
                    Some(d) => if !eq_ignore_ascii_case(d, old(self).display_name@) && !is_known_alias(
                        old(self).aliases@,
                        d,
                    ) {
                        &&& final(self).display_name@ == d
                        &&& final(self).aliases@.len() == old(self).aliases@.len() + 1
                        &&& final(self).aliases@.subrange(0, old(self).aliases@.len() as int)
                            == old(self).aliases@
                        &&& final(self).aliases@.last()@ == old(self).display_name@
                    } else {
                        &&& final(self).display_name == old(self).display_name
                        &&& final(self).aliases == old(self).aliases
                    },
                    None => {
                        &&& final(self).display_name == old(self).display_name
                        &&& final(self).aliases == old(self).aliases
                    },
                }
            }),
            old(self).owner is None ==> opt_view(final(self).owner) == trimmed_non_empty(
                match owner {
                    Some(o) => Some(o@),
                    None => None,
                },
            ),
            old(self).owner is Some ==> final(self).owner == old(self).owner,
    {
        let dn = trim_optional(display_name);
        if let Some(d) = dn {
            if !equals_case_insensitive(d.as_str(), self.display_name.as_str()) && !alias_known(
                &self.aliases,
                d.as_str(),
            ) {
                let ghost before = self.aliases@;
                let old_name = self.display_name.clone();
                self.aliases.push(old_name);
                self.display_name = d;
                assert(self.aliases@.subrange(0, before.len() as int) =~= before);
            }
        }
        if self.owner.is_none() {
            self.owner = trim_optional(owner);
        }
        self.last_seen_index = Some(index);
        self.last_seen_at = Some(timestamp);
        self.thought_count = self.thought_count + 1;
    }

    /// Sets the display name. An empty (after trimming) or unchanged name is
    /// ignored; the previous name becomes an alias unless it equals the new
    /// one ignoring ASCII case or the new one is already an alias.
    pub fn set_display_name(&mut self, display_name: &str)
        ensures
            *final(self) == (AgentRecord {
                display_name: final(self).display_name,
                aliases: final(self).aliases,
                ..*old(self)
            }),
            renamed(*old(self), *final(self), display_name@),
    {
        let d = trim_str(display_name);
        if d.unicode_len() == 0 || str_eq(d.as_str(), self.display_name.as_str()) {
            return;
        }
        if !equals_case_insensitive(d.as_str(), self.display_name.as_str()) && !alias_known(
            &self.aliases,
            d.as_str(),
        ) {
            let ghost before = self.aliases@;
            let old_name = self.display_name.clone();
            self.aliases.push(old_name);
            assert(self.aliases@.subrange(0, before.len() as int) =~= before);
        }
        self.display_name = d;
    }

    /// Sets or clears the owner; an empty (after trimming) owner clears it.
    pub fn set_owner(&mut self, owner: Option<&str>)
        ensures
            opt_view(final(self).owner) == trimmed_non_empty(
                match owner {
                    Some(o) => Some(o@),
                    None => None,
                },
            ),
            *final(self) == (AgentRecord { owner: final(self).owner, ..*old(self) }),
    {
        self.owner = trim_optional(owner);
    }

    /// Sets or clears the description; an empty (after trimming) one clears it.
    pub fn set_description(&mut self, description: Option<&str>)
        ensures
            opt_view(final(self).description) == trimmed_non_empty(
                match description {
                    Some(o) => Some(o@),
                    None => None,
                },
            ),
            *final(self) == (AgentRecord { description: final(self).description, ..*old(self) }),
    {
        self.description = trim_optional(description);
    }

    /// Adds an alias, unless it is empty after trimming, equals the display
    /// name or an existing alias (ignoring ASCII case).
    pub fn add_alias(&mut self, alias: &str)
        ensures
            ({
                let a = trim(alias@);
                if a.len() == 0 || eq_ignore_ascii_case(a, old(self).display_name@)
                    || is_known_alias(old(self).aliases@, a) {
                    final(self).aliases == old(self).aliases
                } else {
                    final(self).aliases@ == old(self).aliases@.push(final(self).aliases@.last())
                        && final(self).aliases@.last()@ == a
                }
            }),
            *final(self) == (AgentRecord { aliases: final(self).aliases, ..*old(self) }),
    {
        let a = trim_str(alias);
        if a.unicode_len() == 0 || equals_case_insensitive(a.as_str(), self.display_name.as_str())
            || alias_known(&self.aliases, a.as_str()) {
            return;
        }
        self.aliases.push(a);
    }

    /// Registers a key, replacing the first key with the same identifier.
    pub fn add_public_key(&mut self, key: AgentPublicKey)
        ensures
            *final(self) == (AgentRecord { public_keys: final(self).public_keys, ..*old(self) }),
            key_added(old(self).public_keys@, final(self).public_keys@, key),
    {
        let mut i: usize = 0;
        while i < self.public_keys.len()
            invariant
                self.public_keys == old(self).public_keys,
                *self == *old(self),
                i <= self.public_keys@.len(),
                forall|j: int| 0 <= j < i ==> (#[trigger] self.public_keys@[j]).key_id@ != key.key_id@,
            decreases self.public_keys@.len() - i,
        {
            if str_eq(self.public_keys[i].key_id.as_str(), key.key_id.as_str()) {
                let ghost idx = i as int;
                self.public_keys.set(i, key);
                proof {
                    assert(has_key(old(self).public_keys@, key.key_id@));
                    let c = first_key_index(old(self).public_keys@, key.key_id@);
                    assert(c == idx) by {
                        if c > idx {
                            assert(old(self).public_keys@[idx].key_id@ == key.key_id@);
                        }
                    }
                }
                return;
            }
            i = i + 1;
        }
        self.public_keys.push(key);
    }

    /// Marks the first key with the given identifier revoked at `revoked_at`;
    /// reports whether such a key exists.
    pub fn revoke_key(&mut self, key_id: &str, revoked_at: Timestamp) -> (found: bool)
        ensures
            found == has_key(old(self).public_keys@, key_id@),
            *final(self) == (AgentRecord { public_keys: final(self).public_keys, ..*old(self) }),
            key_revoked(old(self).public_keys@, final(self).public_keys@, key_id@, revoked_at),
    {
        let mut i: usize = 0;
        while i < self.public_keys.len()
            invariant
                *self == *old(self),
                i <= self.public_keys@.len(),
                forall|j: int| 0 <= j < i ==> (#[trigger] self.public_keys@[j]).key_id@ != key_id@,
            decreases self.public_keys@.len() - i,
        {
            if str_eq(self.public_keys[i].key_id.as_str(), key_id) {
                let ghost idx = i as int;
                let mut updated = self.public_keys.remove(i);
                updated.revoked_at = Some(revoked_at);
                self.public_keys.insert(i, updated);
                assert(self.public_keys@ =~= old(self).public_keys@.update(
                    idx,
                    AgentPublicKey { revoked_at: Some(revoked_at), ..old(self).public_keys@[idx] },
                ));
                proof {
                    assert(has_key(old(self).public_keys@, key_id@));
                    let c = first_key_index(old(self).public_keys@, key_id@);
                    assert(c == idx) by {
                        if c > idx {
                            assert(old(self).public_keys@[idx].key_id@ == key_id@);
                        }
                    }
                }
                return true;
            }
            i = i + 1;
        }
        false
    }
}

/// Whether one of `keys` has this identifier.
pub open spec fn has_key(keys: Seq<AgentPublicKey>, key_id: Seq<char>) -> bool {
    exists|i: int| 0 <= i < keys.len() && (#[trigger] keys[i]).key_id@ == key_id
}

/// The first position of a key with this identifier, when there is one.
pub open spec fn first_key_index(keys: Seq<AgentPublicKey>, key_id: Seq<char>) -> int {
    choose|i: int|
        0 <= i < keys.len() && (#[trigger] keys[i]).key_id@ == key_id && forall|j: int|
            0 <= j < i ==> (#[trigger] keys[j]).key_id@ != key_id
}

/// `after` is `before` with `key` in place of the first key with its
/// identifier, or appended when there is none.
pub open spec fn key_added(before: Seq<AgentPublicKey>, after: Seq<AgentPublicKey>, key: AgentPublicKey) -> bool {
    if has_key(before, key.key_id@) {
        after == before.update(first_key_index(before, key.key_id@), key)
    } else {
        after == before.push(key)
    }
}

/// `after` is `before` with the first key with this identifier marked
/// revoked at `at`, or `before` itself when there is none.
pub open spec fn key_revoked(before: Seq<AgentPublicKey>, after: Seq<AgentPublicKey>, key_id: Seq<char>, at: Timestamp) -> bool {
    if has_key(before, key_id) {
        let i = first_key_index(before, key_id);
        after == before.update(i, AgentPublicKey { revoked_at: Some(at), ..before[i] })
    } else {
        after == before
    }
}

/// The keys of a sequence of agent records.
pub open spec fn agent_keys(records: Seq<AgentRecord>) -> Seq<Seq<char>> {
    records.map_values(|r: AgentRecord| r.agent_id@)
}

/// Registry of the agents of a chain, ordered by agent id.
#[derive(Debug, Clone)]
pub struct AgentRegistry {
    /// Records in strictly increasing order of `agent_id`.
    pub agents: Vec<AgentRecord>,
}

impl AgentRegistry {
    /// Records are sorted by agent id with no id twice.
    pub open spec fn wf(&self) -> bool {
        forall|i: int, j: int|
            0 <= i < j < self.agents@.len() ==> lex_lt(
                #[trigger] self.agents@[i].agent_id@,
                #[trigger] self.agents@[j].agent_id@,
            )
    }

    /// Every record counts at most `c` thoughts.
    pub open spec fn counts_at_most(&self, c: int) -> bool {
        forall|i: int| 0 <= i < self.agents@.len() ==> (#[trigger] self.agents@[i]).thought_count <= c
    }

    /// Whether a record with this id exists.
    pub open spec fn has(&self, agent_id: Seq<char>) -> bool {
        exists|i: int| 0 <= i < self.agents@.len() && (#[trigger] self.agents@[i]).agent_id@ == agent_id
    }

    /// An empty registry.
    pub fn new() -> (r: AgentRegistry)
        ensures
            r.wf(),
            r.agents@.len() == 0,
    {
        AgentRegistry { agents: Vec::new() }
    }

    /// Position of the record with this id, or of the place where it would go.
    pub fn search(&self, agent_id: &str) -> (r: Result<usize, usize>)
        requires
            self.wf(),
        ensures
            r matches Ok(i) ==> i < self.agents@.len() && self.agents@[i as int].agent_id@ == agent_id@,
            r matches Err(i) ==> i <= self.agents@.len() && !self.has(agent_id@) && (forall|j: int|
                0 <= j < i ==> lex_lt(#[trigger] self.agents@[j].agent_id@, agent_id@)) && (forall|
                j: int,
            | i <= j < self.agents@.len() ==> lex_lt(agent_id@, #[trigger] self.agents@[j].agent_id@)),
    {
        let mut i: usize = 0;
        while i < self.agents.len() && str_lt(self.agents[i].agent_id.as_str(), agent_id)
            invariant
                self.wf(),
                i <= self.agents@.len(),
                forall|j: int| 0 <= j < i ==> lex_lt(#[trigger] self.agents@[j].agent_id@, agent_id@),
            decreases self.agents@.len() - i,
        {
            i = i + 1;
        }
        if i < self.agents.len() && str_eq(self.agents[i].agent_id.as_str(), agent_id) {
            return Ok(i);
        }
        proof {
            assert forall|j: int| i <= j < self.agents@.len() implies lex_lt(
                agent_id@,
                #[trigger] self.agents@[j].agent_id@,
            ) by {
                crate::text::lemma_lex_lt_total(agent_id@, self.agents@[i as int].agent_id@);
                if j > i {
                    crate::text::lemma_lex_lt_transitive(
                        agent_id@,
                        self.agents@[i as int].agent_id@,
                        self.agents@[j].agent_id@,
                    );
                }
            }
            assert forall|j: int| 0 <= j < self.agents@.len() implies (
            #[trigger] self.agents@[j]).agent_id@ != agent_id@ by {
                if j < i {
                    crate::text::lemma_lex_lt_irreflexive(agent_id@);
                } else {
                    crate::text::lemma_lex_lt_irreflexive(agent_id@);
                }
            }
        }
        Err(i)
    }

    /// The record with this id, if any.
    pub fn get(&self, agent_id: &str) -> (r: Option<&AgentRecord>)
        requires
            self.wf(),
        ensures
            r matches Some(rec) ==> rec.agent_id@ == agent_id@ && self.agents@.contains(*rec),
            r is None ==> !self.has(agent_id@),
            r matches Some(rec) ==> self.lookup(agent_id@) == Some(*rec),
            r is None ==> self.lookup(agent_id@) is None,
    {
        match self.search(agent_id) {
            Ok(i) => {
                proof {
                    self.lemma_lookup_at(i as int);
                }
                Some(&self.agents[i])
            },
            Err(_) => None,
        }
    }

    /// Builds a registry from persisted records with every thought counter
    /// reset to zero, to be recounted from the chain; of records sharing an
    /// id the last one is kept.
    pub fn from_records(records: Vec<AgentRecord>) -> (r: AgentRegistry)
        ensures
            r.wf(),
            r.counts_at_most(0),
            forall|k: Seq<char>| #[trigger] r.count_of(k) == 0,
            forall|k: Seq<char>| r.has(k) <==> exists|i: int| 0 <= i < records@.len() && (#[trigger] records@[i]).agent_id@ == k,
    {
        let mut reg = AgentRegistry::new();
        let mut records = records;
        let ghost all = records@;
        let total = records.len();
        let mut taken: usize = 0;
        while records.len() > 0
            invariant
                total == all.len(),
                reg.wf(),
                reg.counts_at_most(0),
                taken + records@.len() == all.len(),
                records@ == all.subrange(taken as int, all.len() as int),
                forall|k: Seq<char>| reg.has(k) <==> exists|i: int| 0 <= i < taken && (#[trigger] all[i]).agent_id@ == k,
            decreases records@.len(),
        {
            let mut rec = records.remove(0);
            assert(rec == all[taken as int]);
            rec.thought_count = 0;
            let ghost r0 = reg;
            match reg.search(rec.agent_id.as_str()) {
                Ok(i) => {
                    reg.agents.set(i, rec);
                    proof {
                        assert forall|a: int, b: int| 0 <= a < b < reg.agents@.len() implies lex_lt(
                            #[trigger] reg.agents@[a].agent_id@,
                            #[trigger] reg.agents@[b].agent_id@,
                        ) by {
                            assert(reg.agents@[a].agent_id@ == r0.agents@[a].agent_id@);
                            assert(reg.agents@[b].agent_id@ == r0.agents@[b].agent_id@);
                        }
                        assert forall|k: Seq<char>| reg.has(k) <==> r0.has(k) by {
                            if reg.has(k) {
                                let j = choose|j: int| 0 <= j < reg.agents@.len() && (#[trigger] reg.agents@[j]).agent_id@ == k;
                                assert(r0.agents@[j].agent_id@ == k);
                            }
                            if r0.has(k) {
                                let j = choose|j: int| 0 <= j < r0.agents@.len() && (#[trigger] r0.agents@[j]).agent_id@ == k;
                                assert(reg.agents@[j].agent_id@ == k);
                            }
                        }
                    }
                },
                Err(i) => {
                    reg.insert_at(i, rec);
                    proof {
                        assert forall|k: Seq<char>| reg.has(k) <==> (r0.has(k) || k == rec.agent_id@) by {
                            if reg.has(k) {
                                let j = choose|j: int| 0 <= j < reg.agents@.len() && (#[trigger] reg.agents@[j]).agent_id@ == k;
                                if j < i {
                                    assert(r0.agents@[j].agent_id@ == k);
                                } else if j > i {
                                    assert(r0.agents@[j - 1].agent_id@ == k);
                                }
                            }
                            if r0.has(k) {
                                let j = choose|j: int| 0 <= j < r0.agents@.len() && (#[trigger] r0.agents@[j]).agent_id@ == k;
                                if j < i {
                                    assert(reg.agents@[j].agent_id@ == k);
                                } else {
                                    assert(reg.agents@[j + 1].agent_id@ == k);
                                }
                            }
                            if k == rec.agent_id@ {
                                assert(reg.agents@[i as int].agent_id@ == k);
                            }
                        }
                    }
                },
            }
            proof {
                assert forall|k: Seq<char>| reg.has(k) <==> exists|i: int| 0 <= i < taken + 1 && (#[trigger] all[i]).agent_id@ == k by {
                    if exists|i: int| 0 <= i < taken + 1 && (#[trigger] all[i]).agent_id@ == k {
                        let i = choose|i: int| 0 <= i < taken + 1 && (#[trigger] all[i]).agent_id@ == k;
                        if i < taken {
                            assert(r0.has(k));
                        }
                    }
                }
                assert(records@ =~= all.subrange(taken + 1, all.len() as int));
            }
            taken = taken + 1;
        }
        proof {
            assert forall|k: Seq<char>| #[trigger] reg.count_of(k) == 0 by {
                if reg.has(k) {
                    let j = choose|j: int| 0 <= j < reg.agents@.len() && (#[trigger] reg.agents@[j]).agent_id@ == k;
                    reg.lemma_lookup_at(j);
                }
            }
        }
        reg
    }

    /// Inserts a record at the place its id sorts to.
    pub fn insert_at(&mut self, i: usize, record: AgentRecord)
        requires
            old(self).wf(),
            i <= old(self).agents@.len(),
            forall|j: int| 0 <= j < i ==> lex_lt(#[trigger] old(self).agents@[j].agent_id@, record.agent_id@),
            forall|j: int|
                i <= j < old(self).agents@.len() ==> lex_lt(record.agent_id@, #[trigger] old(self).agents@[j].agent_id@),
        ensures
            final(self).wf(),
            final(self).agents@ == old(self).agents@.insert(i as int, record),
    {
        self.agents.insert(i, record);
        proof {
            assert forall|a: int, b: int| 0 <= a < b < self.agents@.len() implies lex_lt(
                #[trigger] self.agents@[a].agent_id@,
                #[trigger] self.agents@[b].agent_id@,
            ) by {
                if a < i && b > i {
                    crate::text::lemma_lex_lt_transitive(
                        self.agents@[a].agent_id@,
                        self.agents@[i as int].agent_id@,
                        self.agents@[b].agent_id@,
                    );
                }
            }
        }
    }

    /// Records one thought of `agent_id`: an existing record observes it, a
    /// missing one is created with the given display name (the id when none).
    pub fn observe(
        &mut self,
        agent_id: &str,
        display_name: Option<&str>,
        owner: Option<&str>,
        index: u64,
        timestamp: Timestamp,
    )
        requires
            old(self).wf(),
            forall|i: int| 0 <= i < old(self).agents@.len() ==> (#[trigger] old(self).agents@[i]).thought_count < u64::MAX,
        ensures
            final(self).wf(),
            final(self).has(agent_id@),
            forall|k: Seq<char>| final(self).has(k) <==> (old(self).has(k) || k == agent_id@),
            old(self).has(agent_id@) ==> final(self).agents@.len() == old(self).agents@.len(),
            !old(self).has(agent_id@) ==> final(self).agents@.len() == old(self).agents@.len() + 1,
            forall|c: int| c >= 0 && #[trigger] old(self).counts_at_most(c) ==> final(self).counts_at_most(c + 1),
            forall|k: Seq<char>| #[trigger] final(self).count_of(k) == old(self).count_of(k) + if k == agent_id@ {
                1int
            } else {
                0int
            },
    {
        match self.search(agent_id) {
            Ok(i) => {
                let mut rec = self.agents.remove(i);
                proof {
                    old(self).lemma_lookup_at(i as int);
                }
                rec.observe(display_name, owner, index, timestamp);
                let ghost before = self.agents@;
                self.agents.insert(i, rec);
                proof {
                    assert(self.agents@ =~= old(self).agents@.update(i as int, rec));
                    assert forall|a: int, b: int| 0 <= a < b < self.agents@.len() implies lex_lt(
                        #[trigger] self.agents@[a].agent_id@,
                        #[trigger] self.agents@[b].agent_id@,
                    ) by {
                        assert(old(self).agents@[a].agent_id@ == self.agents@[a].agent_id@);
                        assert(old(self).agents@[b].agent_id@ == self.agents@[b].agent_id@);
                    }
                    assert(self.agents@[i as int].agent_id@ == agent_id@);
                    assert forall|c: int| c >= 0 && #[trigger] old(self).counts_at_most(c) implies self.counts_at_most(c + 1) by {
                        assert forall|q: int| 0 <= q < self.agents@.len() implies (#[trigger] self.agents@[q]).thought_count <= c + 1 by {
                            assert(old(self).agents@[q].thought_count <= c);
                        }
                    }
                    assert forall|k: Seq<char>| self.has(k) <==> (old(self).has(k) || k == agent_id@) by {
                        if self.has(k) {
                            let j = choose|j: int| 0 <= j < self.agents@.len() && (#[trigger] self.agents@[j]).agent_id@ == k;
                            assert(old(self).agents@[j].agent_id@ == k);
                        }
                        if old(self).has(k) {
                            let j = choose|j: int| 0 <= j < old(self).agents@.len() && (#[trigger] old(self).agents@[j]).agent_id@ == k;
                            assert(self.agents@[j].agent_id@ == k);
                        }
                    }
                    assert forall|k: Seq<char>| #[trigger] self.count_of(k) == old(self).count_of(k) + if k == agent_id@ {
                        1int
                    } else {
                        0int
                    } by {
                        assert(old(self).agents@[i as int].agent_id@ == agent_id@);
                        assert(self.agents@[i as int] == rec);
                        if old(self).has(k) {
                            let j = choose|j: int| 0 <= j < old(self).agents@.len() && (#[trigger] old(self).agents@[j]).agent_id@ == k;
                            old(self).lemma_lookup_at(j);
                            assert(self.agents@[j].agent_id@ == k);
                            self.lemma_lookup_at(j);
                            if j != i {
                                assert(self.agents@[j] == old(self).agents@[j]);
                                assert(k != agent_id@) by {
                                    if k == agent_id@ {
                                        crate::text::lemma_lex_lt_irreflexive(k);
                                        if j < i {
                                            assert(lex_lt(old(self).agents@[j].agent_id@, old(self).agents@[i as int].agent_id@));
                                        } else {
                                            assert(lex_lt(old(self).agents@[i as int].agent_id@, old(self).agents@[j].agent_id@));
                                        }
                                    }
                                }
                            } else {
                                assert(k == agent_id@);
                            }
                        } else {
                            assert(old(self).has(agent_id@));
                            assert(k != agent_id@);
                            assert(!self.has(k));
                        }
                    }
                }
            },
            Err(i) => {
                let name = match display_name {
                    Some(d) => d,
                    None => agent_id,
                };
                let rec = AgentRecord::new(agent_id, name, owner, index, timestamp);
                self.insert_at(i, rec);
                proof {
                    assert(self.agents@[i as int].agent_id@ == agent_id@);
                    assert forall|c: int| c >= 0 && #[trigger] old(self).counts_at_most(c) implies self.counts_at_most(c + 1) by {
                        assert forall|q: int| 0 <= q < self.agents@.len() implies (#[trigger] self.agents@[q]).thought_count <= c + 1 by {
                            if q < i {
                                assert(old(self).agents@[q].thought_count <= c);
                            } else if q > i {
                                assert(old(self).agents@[q - 1].thought_count <= c);
                            }
                        }
                    }
                    assert forall|k: Seq<char>| self.has(k) <==> (old(self).has(k) || k == agent_id@) by {
                        if self.has(k) {
                            let j = choose|j: int| 0 <= j < self.agents@.len() && (#[trigger] self.agents@[j]).agent_id@ == k;
                            if j < i {
                                assert(old(self).agents@[j].agent_id@ == k);
                            } else if j > i {
                                assert(old(self).agents@[j - 1].agent_id@ == k);
                            }
                        }
                        if old(self).has(k) {
                            let j = choose|j: int| 0 <= j < old(self).agents@.len() && (#[trigger] old(self).agents@[j]).agent_id@ == k;
                            if j < i {
                                assert(self.agents@[j].agent_id@ == k);
                            } else {
                                assert(self.agents@[j + 1].agent_id@ == k);
                            }
                        }
                    }
                    assert forall|k: Seq<char>| #[trigger] self.count_of(k) == old(self).count_of(k) + if k == agent_id@ {
                        1int
                    } else {
                        0int
                    } by {
                        if k == agent_id@ {
                            self.lemma_lookup_at(i as int);
                            assert(!old(self).has(k)) by {
                                if old(self).has(k) {
                                    let j = choose|j: int| 0 <= j < old(self).agents@.len() && (#[trigger] old(self).agents@[j]).agent_id@ == k;
                                }
                            }
                        } else if old(self).has(k) {
                            let j = choose|j: int| 0 <= j < old(self).agents@.len() && (#[trigger] old(self).agents@[j]).agent_id@ == k;
                            old(self).lemma_lookup_at(j);
                            if j < i {
                                assert(self.agents@[j] == old(self).agents@[j]);
                                self.lemma_lookup_at(j);
                            } else {
                                assert(self.agents@[j + 1] == old(self).agents@[j]);
                                self.lemma_lookup_at(j + 1);
                            }
                        } else {
                            assert(!self.has(k));
                        }
                    }
                }
            },
        }
    }
}

/// Registry entry describing one observed entity type.
#[derive(Debug, Clone, PartialEq, Eq)]
pub struct EntityTypeRecord {
    /// The entity type label.
    pub entity_type: String,
    /// First thought index where it was observed.
    pub first_seen_index: Option<u64>,
    /// Most recent thought index where it was observed.
    pub last_seen_index: Option<u64>,
    /// First observed instant.
    pub first_seen_at: Option<Timestamp>,
    /// Most recent observed instant.
    pub last_seen_at: Option<Timestamp>,
    /// Number of thoughts carrying the entity type.
    pub thought_count: u64,
}

impl EntityTypeRecord {
    /// A record created by the first thought of an entity type.
    pub fn new(entity_type: &str, index: u64, timestamp: Timestamp) -> (r: EntityTypeRecord)
        ensures
            r.entity_type@ == entity_type@,
            r.first_seen_index == Some(index),
            r.last_seen_index == Some(index),
            r.first_seen_at == Some(timestamp),
            r.last_seen_at == Some(timestamp),
            r.thought_count == 1,
    {
        EntityTypeRecord {
            entity_type: String::from_str(entity_type),
            first_seen_index: Some(index),
            last_seen_index: Some(index),
            first_seen_at: Some(timestamp),
            last_seen_at: Some(timestamp),
            thought_count: 1,
        }
    }

    /// Records one more thought carrying the entity type.
    pub fn observe(&mut self, index: u64, timestamp: Timestamp)
        requires
            old(self).thought_count < u64::MAX,
        ensures
            *final(self) == (EntityTypeRecord {
                last_seen_index: Some(index),
                last_seen_at: Some(timestamp),
                thought_count: (old(self).thought_count + 1) as u64,
                ..*old(self)
            }),
    {
        self.last_seen_index = Some(index);
        self.last_seen_at = Some(timestamp);
        self.thought_count = self.thought_count + 1;
    }
}

/// Registry of the entity types of a chain, ordered by label.
#[derive(Debug, Clone)]
pub struct EntityTypeRegistry {
    /// Records in strictly increasing order of label.
    pub entity_types: Vec<EntityTypeRecord>,
}

impl EntityTypeRegistry {
    /// Records are sorted by label with no label twice.
    pub open spec fn wf(&self) -> bool {
        forall|i: int, j: int|
            0 <= i < j < self.entity_types@.len() ==> lex_lt(
                #[trigger] self.entity_types@[i].entity_type@,
                #[trigger] self.entity_types@[j].entity_type@,
            )
    }

    /// Every record counts at most `c` thoughts.
    pub open spec fn counts_at_most(&self, c: int) -> bool {
        forall|i: int| 0 <= i < self.entity_types@.len() ==> (#[trigger] self.entity_types@[i]).thought_count <= c
    }

    /// Whether a record with this label exists.
    pub open spec fn has(&self, label: Seq<char>) -> bool {
        exists|i: int| 0 <= i < self.entity_types@.len() && (#[trigger] self.entity_types@[i]).entity_type@ == label
    }

    /// An empty registry.
    pub fn new() -> (r: EntityTypeRegistry)
        ensures
            r.wf(),
            r.entity_types@.len() == 0,
    {
        EntityTypeRegistry { entity_types: Vec::new() }
    }

    /// Position of the record with this label, or of the place where it would go.
    pub fn search(&self, label: &str) -> (r: Result<usize, usize>)
        requires
            self.wf(),
        ensures
            r matches Ok(i) ==> i < self.entity_types@.len() && self.entity_types@[i as int].entity_type@ == label@,
            r matches Err(i) ==> i <= self.entity_types@.len() && !self.has(label@) && (forall|j: int|
                0 <= j < i ==> lex_lt(#[trigger] self.entity_types@[j].entity_type@, label@)) && (forall|
                j: int,
            | i <= j < self.entity_types@.len() ==> lex_lt(label@, #[trigger] self.entity_types@[j].entity_type@)),
    {
        let mut i: usize = 0;
        while i < self.entity_types.len() && str_lt(self.entity_types[i].entity_type.as_str(), label)
            invariant
                self.wf(),
                i <= self.entity_types@.len(),
                forall|j: int| 0 <= j < i ==> lex_lt(#[trigger] self.entity_types@[j].entity_type@, label@),
            decreases self.entity_types@.len() - i,
        {
            i = i + 1;
        }
        if i < self.entity_types.len() && str_eq(self.entity_types[i].entity_type.as_str(), label) {
            return Ok(i);
        }
        proof {
            assert forall|j: int| i <= j < self.entity_types@.len() implies lex_lt(
                label@,
                #[trigger] self.entity_types@[j].entity_type@,
            ) by {
                crate::text::lemma_lex_lt_total(label@, self.entity_types@[i as int].entity_type@);
                if j > i {
                    crate::text::lemma_lex_lt_transitive(
                        label@,
                        self.entity_types@[i as int].entity_type@,
                        self.entity_types@[j].entity_type@,
                    );
                }
            }
            assert forall|j: int| 0 <= j < self.entity_types@.len() implies (
            #[trigger] self.entity_types@[j]).entity_type@ != label@ by {
                crate::text::lemma_lex_lt_irreflexive(label@);
            }
        }
        Err(i)
    }

    /// Builds a registry from persisted records with every thought counter
    /// reset to zero; of records sharing a label the last one is kept.
    pub fn from_records(records: Vec<EntityTypeRecord>) -> (r: EntityTypeRegistry)
        ensures
            r.wf(),
            r.counts_at_most(0),
            forall|k: Seq<char>| #[trigger] r.count_of(k) == 0,
            forall|k: Seq<char>| r.has(k) <==> exists|i: int| 0 <= i < records@.len() && (#[trigger] records@[i]).entity_type@ == k,
    {
        let mut reg = EntityTypeRegistry::new();
        let mut records = records;
        let ghost all = records@;
        let total = records.len();
        let mut taken: usize = 0;
        while records.len() > 0
            invariant
                total == all.len(),
                reg.wf(),
                reg.counts_at_most(0),
                taken + records@.len() == all.len(),
                records@ == all.subrange(taken as int, all.len() as int),
                forall|k: Seq<char>| reg.has(k) <==> exists|i: int| 0 <= i < taken && (#[trigger] all[i]).entity_type@ == k,
            decreases records@.len(),
        {
            let mut rec = records.remove(0);
            assert(rec == all[taken as int]);
            rec.thought_count = 0;
            let ghost r0 = reg;
            match reg.search(rec.entity_type.as_str()) {
                Ok(i) => {
                    reg.entity_types.set(i, rec);
                    proof {
                        assert forall|a: int, b: int| 0 <= a < b < reg.entity_types@.len() implies lex_lt(
                            #[trigger] reg.entity_types@[a].entity_type@,
                            #[trigger] reg.entity_types@[b].entity_type@,
                        ) by {
                            assert(reg.entity_types@[a].entity_type@ == r0.entity_types@[a].entity_type@);
                            assert(reg.entity_types@[b].entity_type@ == r0.entity_types@[b].entity_type@);
                        }
                        assert forall|k: Seq<char>| reg.has(k) <==> r0.has(k) by {
                            if reg.has(k) {
                                let j = choose|j: int| 0 <= j < reg.entity_types@.len() && (#[trigger] reg.entity_types@[j]).entity_type@ == k;
                                assert(r0.entity_types@[j].entity_type@ == k);
                            }
                            if r0.has(k) {
                                let j = choose|j: int| 0 <= j < r0.entity_types@.len() && (#[trigger] r0.entity_types@[j]).entity_type@ == k;
                                assert(reg.entity_types@[j].entity_type@ == k);
                            }
                        }
                    }
                },
                Err(i) => {
                    reg.entity_types.insert(i, rec);
                    proof {
                        assert forall|a: int, b: int| 0 <= a < b < reg.entity_types@.len() implies lex_lt(
                            #[trigger] reg.entity_types@[a].entity_type@,
                            #[trigger] reg.entity_types@[b].entity_type@,
                        ) by {
                            if a < i && b > i {
                                crate::text::lemma_lex_lt_transitive(
                                    reg.entity_types@[a].entity_type@,
                                    reg.entity_types@[i as int].entity_type@,
                                    reg.entity_types@[b].entity_type@,
                                );
                            }
                        }
                        assert forall|k: Seq<char>| reg.has(k) <==> (r0.has(k) || k == rec.entity_type@) by {
                            if reg.has(k) {
                                let j = choose|j: int| 0 <= j < reg.entity_types@.len() && (#[trigger] reg.entity_types@[j]).entity_type@ == k;
                                if j < i {
                                    assert(r0.entity_types@[j].entity_type@ == k);
                                } else if j > i {
                                    assert(r0.entity_types@[j - 1].entity_type@ == k);
                                }
                            }
                            if r0.has(k) {
                                let j = choose|j: int| 0 <= j < r0.entity_types@.len() && (#[trigger] r0.entity_types@[j]).entity_type@ == k;
                                if j < i {
                                    assert(reg.entity_types@[j].entity_type@ == k);
                                } else {
                                    assert(reg.entity_types@[j + 1].entity_type@ == k);
                                }
                            }
                            if k == rec.entity_type@ {
                                assert(reg.entity_types@[i as int].entity_type@ == k);
                            }
                        }
                    }
                },
            }
            proof {
                assert forall|k: Seq<char>| reg.has(k) <==> exists|i: int| 0 <= i < taken + 1 && (#[trigger] all[i]).entity_type@ == k by {
                    if exists|i: int| 0 <= i < taken + 1 && (#[trigger] all[i]).entity_type@ == k {
                        let i = choose|i: int| 0 <= i < taken + 1 && (#[trigger] all[i]).entity_type@ == k;
                        if i < taken {
                            assert(r0.has(k));
                        }
                    }
                }
                assert(records@ =~= all.subrange(taken + 1, all.len() as int));
            }
            taken = taken + 1;
        }
        proof {
            assert forall|k: Seq<char>| #[trigger] reg.count_of(k) == 0 by {
                if reg.has(k) {
                    let j = choose|j: int| 0 <= j < reg.entity_types@.len() && (#[trigger] reg.entity_types@[j]).entity_type@ == k;
                    reg.lemma_lookup_at(j);
                }
            }
        }
        reg
    }

    /// Records one thought carrying `label`.
    pub fn observe(&mut self, label: &str, index: u64, timestamp: Timestamp)
        requires
            old(self).wf(),
            forall|i: int| 0 <= i < old(self).entity_types@.len() ==> (#[trigger] old(self).entity_types@[i]).thought_count < u64::MAX,
        ensures
            final(self).wf(),
            final(self).has(label@),
            forall|k: Seq<char>| final(self).has(k) <==> (old(self).has(k) || k == label@),
            forall|c: int| c >= 0 && #[trigger] old(self).counts_at_most(c) ==> final(self).counts_at_most(c + 1),
            forall|k: Seq<char>| #[trigger] final(self).count_of(k) == old(self).count_of(k) + if k == label@ {
                1int
            } else {
                0int
            },
    {
        match self.search(label) {
            Ok(i) => {
                let mut rec = self.entity_types.remove(i);
                rec.observe(index, timestamp);
                self.entity_types.insert(i, rec);
                proof {
                    assert(self.entity_types@ =~= old(self).entity_types@.update(i as int, rec));
                    assert forall|a: int, b: int| 0 <= a < b < self.entity_types@.len() implies lex_lt(
                        #[trigger] self.entity_types@[a].entity_type@,
                        #[trigger] self.entity_types@[b].entity_type@,
                    ) by {
                        assert(old(self).entity_types@[a].entity_type@ == self.entity_types@[a].entity_type@);
                        assert(old(self).entity_types@[b].entity_type@ == self.entity_types@[b].entity_type@);
                    }
                    assert(self.entity_types@[i as int].entity_type@ == label@);
                    assert forall|c: int| c >= 0 && #[trigger] old(self).counts_at_most(c) implies self.counts_at_most(c + 1) by {
                        assert forall|q: int| 0 <= q < self.entity_types@.len() implies (#[trigger] self.entity_types@[q]).thought_count <= c + 1 by {
                            assert(old(self).entity_types@[q].thought_count <= c);
                        }
                    }
                    assert forall|k: Seq<char>| self.has(k) <==> (old(self).has(k) || k == label@) by {
                        if self.has(k) {
                            let j = choose|j: int| 0 <= j < self.entity_types@.len() && (#[trigger] self.entity_types@[j]).entity_type@ == k;
                            assert(old(self).entity_types@[j].entity_type@ == k);
                        }
                        if old(self).has(k) {
                            let j = choose|j: int| 0 <= j < old(self).entity_types@.len() && (#[trigger] old(self).entity_types@[j]).entity_type@ == k;
                            assert(self.entity_types@[j].entity_type@ == k);
                        }
                    }
                    assert forall|k: Seq<char>| #[trigger] self.count_of(k) == old(self).count_of(k) + if k == label@ {
                        1int
                    } else {
                        0int
                    } by {
                        assert(old(self).entity_types@[i as int].entity_type@ == label@);
                        assert(self.entity_types@[i as int] == rec);
                        if old(self).has(k) {
                            let j = choose|j: int| 0 <= j < old(self).entity_types@.len() && (#[trigger] old(self).entity_types@[j]).entity_type@ == k;
                            old(self).lemma_lookup_at(j);
                            assert(self.entity_types@[j].entity_type@ == k);
                            self.lemma_lookup_at(j);
                            if j != i {
                                assert(self.entity_types@[j] == old(self).entity_types@[j]);
                                assert(k != label@) by {
                                    if k == label@ {
                                        crate::text::lemma_lex_lt_irreflexive(k);
                                        if j < i {
                                            assert(lex_lt(old(self).entity_types@[j].entity_type@, old(self).entity_types@[i as int].entity_type@));
                                        } else {
                                            assert(lex_lt(old(self).entity_types@[i as int].entity_type@, old(self).entity_types@[j].entity_type@));
                                        }
                                    }
                                }
                            } else {
                                assert(k == label@);
                            }
                        } else {
                            assert(old(self).has(label@));
                            assert(k != label@);
                            assert(!self.has(k));
                        }
                    }
                }
            },
            Err(i) => {
                let rec = EntityTypeRecord::new(label, index, timestamp);
                self.entity_types.insert(i, rec);
                proof {
                    assert forall|a: int, b: int| 0 <= a < b < self.entity_types@.len() implies lex_lt(
                        #[trigger] self.entity_types@[a].entity_type@,
                        #[trigger] self.entity_types@[b].entity_type@,
                    ) by {
                        if a < i && b > i {
                            crate::text::lemma_lex_lt_transitive(
                                self.entity_types@[a].entity_type@,
                                self.entity_types@[i as int].entity_type@,
                                self.entity_types@[b].entity_type@,
                            );
                        }
                    }
                    assert(self.entity_types@[i as int].entity_type@ == label@);
                    assert forall|c: int| c >= 0 && #[trigger] old(self).counts_at_most(c) implies self.counts_at_most(c + 1) by {
                        assert forall|q: int| 0 <= q < self.entity_types@.len() implies (#[trigger] self.entity_types@[q]).thought_count <= c + 1 by {
                            if q < i {
                                assert(old(self).entity_types@[q].thought_count <= c);
                            } else if q > i {
                                assert(old(self).entity_types@[q - 1].thought_count <= c);
                            }
                        }
                    }
                    assert forall|k: Seq<char>| self.has(k) <==> (old(self).has(k) || k == label@) by {
                        if self.has(k) {
                            let j = choose|j: int| 0 <= j < self.entity_types@.len() && (#[trigger] self.entity_types@[j]).entity_type@ == k;
                            if j < i {
                                assert(old(self).entity_types@[j].entity_type@ == k);
                            } else if j > i {
                                assert(old(self).entity_types@[j - 1].entity_type@ == k);
                            }
                        }
                        if old(self).has(k) {
                            let j = choose|j: int| 0 <= j < old(self).entity_types@.len() && (#[trigger] old(self).entity_types@[j]).entity_type@ == k;
                            if j < i {
                                assert(self.entity_types@[j].entity_type@ == k);
                            } else {
                                assert(self.entity_types@[j + 1].entity_type@ == k);
                            }
                        }
                    }
                    assert forall|k: Seq<char>| #[trigger] self.count_of(k) == old(self).count_of(k) + if k == label@ {
                        1int
                    } else {
                        0int
                    } by {
                        if k == label@ {
                            self.lemma_lookup_at(i as int);
                            assert(!old(self).has(k)) by {
                                if old(self).has(k) {
                                    let j = choose|j: int| 0 <= j < old(self).entity_types@.len() && (#[trigger] old(self).entity_types@[j]).entity_type@ == k;
                                }
                            }
                        } else if old(self).has(k) {
                            let j = choose|j: int| 0 <= j < old(self).entity_types@.len() && (#[trigger] old(self).entity_types@[j]).entity_type@ == k;
                            old(self).lemma_lookup_at(j);
                            if j < i {
                                assert(self.entity_types@[j] == old(self).entity_types@[j]);
                                self.lemma_lookup_at(j);
                            } else {
                                assert(self.entity_types@[j + 1] == old(self).entity_types@[j]);
                                self.lemma_lookup_at(j + 1);
                            }
                        } else {
                            assert(!self.has(k));
                        }
                    }
                }
            },
        }
    }
}

impl AgentPublicKey {
    /// Field-by-field equality, strings and bytes compared by content.
    pub open spec fn same_fields(&self, other: AgentPublicKey) -> bool {
        &&& self.key_id@ == other.key_id@
        &&& self.algorithm == other.algorithm
        &&& self.public_key_bytes@ == other.public_key_bytes@
        &&& self.added_at == other.added_at
        &&& self.revoked_at == other.revoked_at
    }

    /// A copy of the key.
    pub fn copy(&self) -> (r: AgentPublicKey)
        ensures
            r.same_fields(*self),
    {
        let mut bytes: Vec<u8> = Vec::new();
        let mut i: usize = 0;
        while i < self.public_key_bytes.len()
            invariant
                i <= self.public_key_bytes@.len(),
                bytes@ == self.public_key_bytes@.take(i as int),
            decreases self.public_key_bytes@.len() - i,
        {
            bytes.push(self.public_key_bytes[i]);
            i = i + 1;
            assert(bytes@ =~= self.public_key_bytes@.take(i as int));
        }
        assert(bytes@ =~= self.public_key_bytes@);
        AgentPublicKey {
            key_id: self.key_id.clone(),
            algorithm: self.algorithm,
            public_key_bytes: bytes,
            added_at: self.added_at,
            revoked_at: self.revoked_at,
        }
    }
}

impl AgentRecord {
    /// Field-by-field equality, strings and lists compared by content.
    pub open spec fn same_fields(&self, other: AgentRecord) -> bool {
        &&& self.agent_id@ == other.agent_id@
        &&& self.display_name@ == other.display_name@
        &&& opt_view(self.owner) == opt_view(other.owner)
        &&& opt_view(self.description) == opt_view(other.description)
        &&& self.aliases@.len() == other.aliases@.len()
        &&& (forall|i: int| 0 <= i < self.aliases@.len() ==> (#[trigger] self.aliases@[i])@ == other.aliases@[i]@)
        &&& self.public_keys@.len() == other.public_keys@.len()
        &&& (forall|i: int| 0 <= i < self.public_keys@.len() ==> (#[trigger] self.public_keys@[i]).same_fields(other.public_keys@[i]))
        &&& self.status == other.status
        &&& self.first_seen_index == other.first_seen_index
        &&& self.last_seen_index == other.last_seen_index
        &&& self.first_seen_at == other.first_seen_at
        &&& self.last_seen_at == other.last_seen_at
        &&& self.thought_count == other.thought_count
    }

    /// A copy of the record.
    pub fn copy(&self) -> (r: AgentRecord)
        ensures
            r.same_fields(*self),
    {
        let mut keys: Vec<AgentPublicKey> = Vec::new();
        let mut i: usize = 0;
        while i < self.public_keys.len()
            invariant
                i <= self.public_keys@.len(),
                keys@.len() == i,
                forall|j: int| 0 <= j < i ==> (#[trigger] keys@[j]).same_fields(self.public_keys@[j]),
            decreases self.public_keys@.len() - i,
        {
            keys.push(self.public_keys[i].copy());
            i = i + 1;
        }
        AgentRecord {
            agent_id: self.agent_id.clone(),
            display_name: self.display_name.clone(),
            owner: crate::model::clone_opt_string(&self.owner),
            description: crate::model::clone_opt_string(&self.description),
            aliases: crate::model::clone_strings(&self.aliases),
            public_keys: keys,
            status: self.status,
            first_seen_index: self.first_seen_index,
            last_seen_index: self.last_seen_index,
            first_seen_at: self.first_seen_at,
            last_seen_at: self.last_seen_at,
            thought_count: self.thought_count,
        }
    }
}

/// The record a registry update creates for an agent seen for the first time.
pub open spec fn is_stub(r: AgentRecord, agent_id: Seq<char>) -> bool {
    &&& r.agent_id@ == agent_id
    &&& r.display_name@ == agent_id
    &&& r.owner is None
    &&& r.description is None
    &&& r.aliases@.len() == 0
    &&& r.public_keys@.len() == 0
    &&& r.status == AgentStatus::Active
    &&& r.first_seen_index is None
    &&& r.last_seen_index is None
    &&& r.first_seen_at is None
    &&& r.last_seen_at is None
    &&& r.thought_count == 0
}

/// How setting the display name to `display_name` changes the name and the
/// aliases of `before` into those of `after`.
pub open spec fn renamed(before: AgentRecord, after: AgentRecord, display_name: Seq<char>) -> bool {
    let d = trim(display_name);
    if d.len() == 0 || d == before.display_name@ {
        after.display_name == before.display_name && after.aliases == before.aliases
    } else {
        &&& after.display_name@ == d
        &&& if !eq_ignore_ascii_case(d, before.display_name@) && !is_known_alias(before.aliases@, d) {
            &&& after.aliases@.len() == before.aliases@.len() + 1
            &&& after.aliases@.subrange(0, before.aliases@.len() as int) == before.aliases@
            &&& after.aliases@.last()@ == before.display_name@
        } else {
            after.aliases == before.aliases
        }
    }
}

/// `after` holds `record` under its id and otherwise what `before` holds.
pub open spec fn agent_stored(before: AgentRegistry, after: AgentRegistry, record: AgentRecord) -> bool {
    &&& forall|k: Seq<char>| #[trigger] after.has(k) <==> (before.has(k) || k == record.agent_id@)
    &&& after.lookup(record.agent_id@) == Some(record)
    &&& forall|k: Seq<char>| k != record.agent_id@ ==> #[trigger] after.lookup(k) == before.lookup(k)
}

impl AgentRegistry {
    /// A position holding a record with this id, when there is one.
    pub open spec fn position_of(&self, agent_id: Seq<char>) -> int {
        choose|i: int| 0 <= i < self.agents@.len() && (#[trigger] self.agents@[i]).agent_id@ == agent_id
    }

    /// The record with this id, if any.
    pub open spec fn lookup(&self, agent_id: Seq<char>) -> Option<AgentRecord> {
        if self.has(agent_id) {
            Some(self.agents@[self.position_of(agent_id)])
        } else {
            None
        }
    }

    /// How many thoughts the record of `agent_id` counts; zero without one.
    pub open spec fn count_of(&self, agent_id: Seq<char>) -> int {
        match self.lookup(agent_id) {
            Some(r) => r.thought_count as int,
            None => 0,
        }
    }

    /// In a well-formed registry, the id of a record finds that record.
    pub proof fn lemma_lookup_at(&self, i: int)
        requires
            self.wf(),
            0 <= i < self.agents@.len(),
        ensures
            self.lookup(self.agents@[i].agent_id@) == Some(self.agents@[i]),
    {
        let id = self.agents@[i].agent_id@;
        assert(self.has(id));
        let c = self.position_of(id);
        if c < i {
            assert(lex_lt(self.agents@[c].agent_id@, self.agents@[i].agent_id@));
            crate::text::lemma_lex_lt_irreflexive(id);
        } else if c > i {
            assert(lex_lt(self.agents@[i].agent_id@, self.agents@[c].agent_id@));
            crate::text::lemma_lex_lt_irreflexive(id);
        }
    }

    /// Replaces the record at position `i` by one with the same id and
    /// gives back the record it held.
    pub fn replace_at(&mut self, i: usize, record: AgentRecord) -> (prev: AgentRecord)
        requires
            old(self).wf(),
            i < old(self).agents@.len(),
            record.agent_id@ == old(self).agents@[i as int].agent_id@,
        ensures
            final(self).wf(),
            prev == old(self).agents@[i as int],
            final(self).agents@ == old(self).agents@.update(i as int, record),
            agent_stored(*old(self), *final(self), record),
    {
        let prev = self.agents.remove(i);
        self.agents.insert(i, record);
        proof {
            assert(self.agents@ =~= old(self).agents@.update(i as int, record));
            assert forall|a: int, b: int| 0 <= a < b < self.agents@.len() implies lex_lt(
                #[trigger] self.agents@[a].agent_id@,
                #[trigger] self.agents@[b].agent_id@,
            ) by {
                assert(old(self).agents@[a].agent_id@ == self.agents@[a].agent_id@);
                assert(old(self).agents@[b].agent_id@ == self.agents@[b].agent_id@);
            }
            assert forall|k: Seq<char>| #[trigger] self.has(k) <==> (old(self).has(k) || k == record.agent_id@) by {
                if self.has(k) {
                    let j = choose|j: int| 0 <= j < self.agents@.len() && (#[trigger] self.agents@[j]).agent_id@ == k;
                    assert(old(self).agents@[j].agent_id@ == k);
                }
                if old(self).has(k) {
                    let j = choose|j: int| 0 <= j < old(self).agents@.len() && (#[trigger] old(self).agents@[j]).agent_id@ == k;
                    assert(self.agents@[j].agent_id@ == k);
                }
                if k == record.agent_id@ {
                    assert(self.agents@[i as int].agent_id@ == k);
                }
            }
            self.lemma_lookup_at(i as int);
            assert forall|k: Seq<char>| k != record.agent_id@ implies #[trigger] self.lookup(k) == old(self).lookup(k) by {
                if self.has(k) {
                    let j = choose|j: int| 0 <= j < self.agents@.len() && (#[trigger] self.agents@[j]).agent_id@ == k;
                    self.lemma_lookup_at(j);
                    old(self).lemma_lookup_at(j);
                    assert(self.agents@[j] == old(self).agents@[j]);
                } else {
                    assert(!old(self).has(k));
                }
            }
        }
        prev
    }

    /// Adds a record whose id is not registered yet, in id order.
    pub fn insert_new(&mut self, record: AgentRecord)
        requires
            old(self).wf(),
            !old(self).has(record.agent_id@),
        ensures
            final(self).wf(),
            final(self).agents@.len() == old(self).agents@.len() + 1,
            agent_stored(*old(self), *final(self), record),
            forall|c: int| #[trigger] old(self).counts_at_most(c) && record.thought_count <= c ==> final(self).counts_at_most(c),
    {
        match self.search(record.agent_id.as_str()) {
            Ok(_) => {},
            Err(i) => {
                let ghost rec = record;
                self.insert_at(i, record);
                proof {
                    assert forall|k: Seq<char>| #[trigger] self.has(k) <==> (old(self).has(k) || k == rec.agent_id@) by {
                        if self.has(k) {
                            let j = choose|j: int| 0 <= j < self.agents@.len() && (#[trigger] self.agents@[j]).agent_id@ == k;
                            if j < i {
                                assert(old(self).agents@[j].agent_id@ == k);
                            } else if j > i {
                                assert(old(self).agents@[j - 1].agent_id@ == k);
                            }
                        }
                        if old(self).has(k) {
                            let j = choose|j: int| 0 <= j < old(self).agents@.len() && (#[trigger] old(self).agents@[j]).agent_id@ == k;
                            if j < i {
                                assert(self.agents@[j].agent_id@ == k);
                            } else {
                                assert(self.agents@[j + 1].agent_id@ == k);
                            }
                        }
                        if k == rec.agent_id@ {
                            assert(self.agents@[i as int].agent_id@ == k);
                        }
                    }
                    self.lemma_lookup_at(i as int);
                    assert forall|k: Seq<char>| k != rec.agent_id@ implies #[trigger] self.lookup(k) == old(self).lookup(k) by {
                        if self.has(k) {
                            let j = choose|j: int| 0 <= j < self.agents@.len() && (#[trigger] self.agents@[j]).agent_id@ == k;
                            self.lemma_lookup_at(j);
                            if j < i {
                                old(self).lemma_lookup_at(j);
                                assert(self.agents@[j] == old(self).agents@[j]);
                            } else {
                                assert(j != i);
                                old(self).lemma_lookup_at(j - 1);
                                assert(self.agents@[j] == old(self).agents@[j - 1]);
                            }
                        } else {
                            assert(!old(self).has(k));
                        }
                    }
                    assert forall|c: int| #[trigger] old(self).counts_at_most(c) && rec.thought_count <= c implies self.counts_at_most(c) by {
                        assert forall|q: int| 0 <= q < self.agents@.len() implies (#[trigger] self.agents@[q]).thought_count <= c by {
                            if q < i {
                                assert(old(self).agents@[q].thought_count <= c);
                            } else if q > i {
                                assert(old(self).agents@[q - 1].thought_count <= c);
                            }
                        }
                    }
                }
            },
        }
    }
}

impl EntityTypeRecord {
    /// A copy of the record.
    pub fn copy(&self) -> (r: EntityTypeRecord)
        ensures
            r == *self,
    {
        EntityTypeRecord {
            entity_type: self.entity_type.clone(),
            first_seen_index: self.first_seen_index,
            last_seen_index: self.last_seen_index,
            first_seen_at: self.first_seen_at,
            last_seen_at: self.last_seen_at,
            thought_count: self.thought_count,
        }
    }
}

impl EntityTypeRegistry {
    /// A position holding a record with this label, when there is one.
    pub open spec fn position_of(&self, label: Seq<char>) -> int {
        choose|i: int| 0 <= i < self.entity_types@.len() && (#[trigger] self.entity_types@[i]).entity_type@ == label
    }

    /// The record with this label, if any.
    pub open spec fn lookup(&self, label: Seq<char>) -> Option<EntityTypeRecord> {
        if self.has(label) {
            Some(self.entity_types@[self.position_of(label)])
        } else {
            None
        }
    }

    /// How many thoughts the record of `label` counts; zero without one.
    pub open spec fn count_of(&self, label: Seq<char>) -> int {
        match self.lookup(label) {
            Some(r) => r.thought_count as int,
            None => 0,
        }
    }

    /// In a well-formed registry, the label of a record finds that record.
    pub proof fn lemma_lookup_at(&self, i: int)
        requires
            self.wf(),
            0 <= i < self.entity_types@.len(),
        ensures
            self.lookup(self.entity_types@[i].entity_type@) == Some(self.entity_types@[i]),
    {
        let label = self.entity_types@[i].entity_type@;
        assert(self.has(label));
        let c = self.position_of(label);
        if c < i {
            assert(lex_lt(self.entity_types@[c].entity_type@, self.entity_types@[i].entity_type@));
            crate::text::lemma_lex_lt_irreflexive(label);
        } else if c > i {
            assert(lex_lt(self.entity_types@[i].entity_type@, self.entity_types@[c].entity_type@));
            crate::text::lemma_lex_lt_irreflexive(label);
        }
    }

    /// The record with this label, if any.
    pub fn get(&self, label: &str) -> (r: Option<&EntityTypeRecord>)
        requires
            self.wf(),
        ensures
            r matches Some(rec) ==> self.lookup(label@) == Some(*rec),
            r is None ==> self.lookup(label@) is None,
    {
        match self.search(label) {
            Ok(i) => {
                proof {
                    self.lemma_lookup_at(i as int);
                }
                Some(&self.entity_types[i])
            },
            Err(_) => None,
        }
    }

    /// Adds a record whose label is not registered yet, in label order.
    pub fn insert_new(&mut self, record: EntityTypeRecord)
        requires
            old(self).wf(),
            !old(self).has(record.entity_type@),
        ensures
            final(self).wf(),
            forall|k: Seq<char>| #[trigger] final(self).has(k) <==> (old(self).has(k) || k == record.entity_type@),
            final(self).lookup(record.entity_type@) == Some(record),
            forall|k: Seq<char>| k != record.entity_type@ ==> #[trigger] final(self).lookup(k) == old(self).lookup(k),
            forall|c: int| #[trigger] old(self).counts_at_most(c) && record.thought_count <= c ==> final(self).counts_at_most(c),
    {
        match self.search(record.entity_type.as_str()) {
            Ok(_) => {},
            Err(i) => {
                let ghost rec = record;
                self.entity_types.insert(i, record);
                proof {
                    assert forall|a: int, b: int| 0 <= a < b < self.entity_types@.len() implies lex_lt(
                        #[trigger] self.entity_types@[a].entity_type@,
                        #[trigger] self.entity_types@[b].entity_type@,
                    ) by {
                        if a < i && b > i {
                            crate::text::lemma_lex_lt_transitive(
                                self.entity_types@[a].entity_type@,
                                self.entity_types@[i as int].entity_type@,
                                self.entity_types@[b].entity_type@,
                            );
                        }
                    }
                    assert forall|k: Seq<char>| #[trigger] self.has(k) <==> (old(self).has(k) || k == rec.entity_type@) by {
                        if self.has(k) {
                            let j = choose|j: int| 0 <= j < self.entity_types@.len() && (#[trigger] self.entity_types@[j]).entity_type@ == k;
                            if j < i {
                                assert(old(self).entity_types@[j].entity_type@ == k);
                            } else if j > i {
                                assert(old(self).entity_types@[j - 1].entity_type@ == k);
                            }
                        }
                        if old(self).has(k) {
                            let j = choose|j: int| 0 <= j < old(self).entity_types@.len() && (#[trigger] old(self).entity_types@[j]).entity_type@ == k;
                            if j < i {
                                assert(self.entity_types@[j].entity_type@ == k);
                            } else {
                                assert(self.entity_types@[j + 1].entity_type@ == k);
                            }
                        }
                        if k == rec.entity_type@ {
                            assert(self.entity_types@[i as int].entity_type@ == k);
                        }
                    }
                    self.lemma_lookup_at(i as int);
                    assert forall|k: Seq<char>| k != rec.entity_type@ implies #[trigger] self.lookup(k) == old(self).lookup(k) by {
                        if self.has(k) {
                            let j = choose|j: int| 0 <= j < self.entity_types@.len() && (#[trigger] self.entity_types@[j]).entity_type@ == k;
                            self.lemma_lookup_at(j);
                            if j < i {
                                old(self).lemma_lookup_at(j);
                                assert(self.entity_types@[j] == old(self).entity_types@[j]);
                            } else {
                                assert(j != i);
                                old(self).lemma_lookup_at(j - 1);
                                assert(self.entity_types@[j] == old(self).entity_types@[j - 1]);
                            }
                        } else {
                            assert(!old(self).has(k));
                        }
                    }
                    assert forall|c: int| #[trigger] old(self).counts_at_most(c) && rec.thought_count <= c implies self.counts_at_most(c) by {
                        assert forall|q: int| 0 <= q < self.entity_types@.len() implies (#[trigger] self.entity_types@[q]).thought_count <= c by {
                            if q < i {
                                assert(old(self).entity_types@[q].thought_count <= c);
                            } else if q > i {
                                assert(old(self).entity_types@[q - 1].thought_count <= c);
                            }
                        }
                    }
                }
            },
        }
    }
}

/// Whether a record has a key with this identifier.
pub fn agent_has_key(record: &AgentRecord, key_id: &str) -> (r: bool)
    ensures
        r == has_key(record.public_keys@, key_id@),
{
    let mut i: usize = 0;
    while i < record.public_keys.len()
        invariant
            i <= record.public_keys@.len(),
            forall|j: int| 0 <= j < i ==> (#[trigger] record.public_keys@[j]).key_id@ != key_id@,
        decreases record.public_keys@.len() - i,
    {
        if str_eq(record.public_keys[i].key_id.as_str(), key_id) {
            return true;
        }
        i = i + 1;
    }
    false
}

} // verus!
