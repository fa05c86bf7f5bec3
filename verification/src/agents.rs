//! Explicit edits of a chain's agent and entity-type registries: the lookups
//! and updates that callers make besides appending thoughts. Persisting the
//! changed registry is the caller's part.
use vstd::prelude::*;
use crate::chain::MentisDb;
use crate::kinds::{AgentStatus, PublicKeyAlgorithm};
use crate::model::{empty_label_message, normalize_non_empty_label, opt_view, trimmed_non_empty, ChainError, Timestamp};
use crate::registry::{
    agent_stored, is_known_alias, is_stub, key_added, key_revoked, has_key, renamed, AgentPublicKey, AgentRecord,
    EntityTypeRecord,
};
use crate::text::{concat_str, eq_ignore_ascii_case, trim};

verus! {

/// The refusal of an agent id that names no record.
pub open spec fn unregistered_agent_message(agent_id: Seq<char>) -> Seq<char> {
    "No agent '"@ + agent_id + "' is registered in this chain"@
}

/// The refusal of a key id that names no key of the agent.
pub open spec fn missing_key_message(key_id: Seq<char>, agent_id: Seq<char>) -> Seq<char> {
    "No key '"@ + key_id + "' found for agent '"@ + agent_id + "'"@
}

/// The refusal of a key without bytes.
pub open spec fn empty_key_message() -> Seq<char> {
    "public_key_bytes must not be empty"@
}

/// How an upsert turns `base` into `rec`: the given display name is set as
/// by a rename, a given owner or description replaces (or, when blank,
/// clears) the old one, a given status replaces the old one, and nothing
/// else changes.
pub open spec fn upserted(
    base: AgentRecord,
    rec: AgentRecord,
    display_name: Option<Seq<char>>,
    owner: Option<Seq<char>>,
    description: Option<Seq<char>>,
    status: Option<AgentStatus>,
) -> bool {
    &&& rec == (AgentRecord {
        display_name: rec.display_name,
        aliases: rec.aliases,
        owner: rec.owner,
        description: rec.description,
        status: rec.status,
        ..base
    })
    &&& match display_name {
        Some(d) => renamed(base, rec, d),
        None => rec.display_name == base.display_name && rec.aliases == base.aliases,
    }
    &&& match owner {
        Some(o) => opt_view(rec.owner) == trimmed_non_empty(Some(o)),
        None => rec.owner == base.owner,
    }
    &&& match description {
        Some(d) => opt_view(rec.description) == trimmed_non_empty(Some(d)),
        None => rec.description == base.description,
    }
    &&& rec.status == match status {
        Some(s) => s,
        None => base.status,
    }
}

/// The character view of an optional borrowed string.
pub open spec fn opt_str(value: Option<&str>) -> Option<Seq<char>> {
    match value {
        Some(v) => Some(v@),
        None => None,
    }
}

impl MentisDb {
    /// Everything but the agent registry is as in `other`.
    pub open spec fn same_but_agents(&self, other: &MentisDb) -> bool {
        &&& self.spec_thoughts() == other.spec_thoughts()
        &&& self.spec_entity_types() == other.spec_entity_types()
        &&& self.spec_invalidated() == other.spec_invalidated()
    }

    /// The registered record of an agent, looked up by its id.
    pub fn get_agent(&self, agent_id: &str) -> (r: Option<&AgentRecord>)
        requires
            self.wf(),
        ensures
            r matches Some(rec) ==> self.spec_agents().lookup(agent_id@) == Some(*rec),
            r is None ==> self.spec_agents().lookup(agent_id@) is None,
    {
        proof {
            self.lemma_registry_bounds();
        }
        self.agent_registry.get(agent_id)
    }

    /// All registered agent records, in id order.
    pub fn list_agent_registry(&self) -> (r: Vec<&AgentRecord>)
        requires
            self.wf(),
        ensures
            r@.len() == self.spec_agents().agents@.len(),
            forall|i: int| 0 <= i < r@.len() ==> *(#[trigger] r@[i]) == self.spec_agents().agents@[i],
    {
        proof {
            self.lemma_registry_bounds();
        }
        let mut r: Vec<&AgentRecord> = Vec::new();
        let mut i: usize = 0;
        while i < self.agent_registry.agents.len()
            invariant
                i <= self.agent_registry.agents@.len(),
                r@.len() == i,
                forall|j: int| 0 <= j < i ==> *(#[trigger] r@[j]) == self.agent_registry.agents@[j],
            decreases self.agent_registry.agents@.len() - i,
        {
            r.push(&self.agent_registry.agents[i]);
            i = i + 1;
        }
        r
    }

    /// The position of the record named by `agent_id` (trimmed), or the
    /// refusal: an empty id is invalid, an unknown one is not found.
    fn agent_position(&self, agent_id: &str) -> (r: Result<usize, ChainError>)
        requires
            self.wf(),
        ensures
            trim(agent_id@).len() == 0 ==> (r matches Err(ChainError::InvalidInput(m)) && m@
                == empty_label_message("agent_id"@)),
            trim(agent_id@).len() > 0 && !self.spec_agents().has(trim(agent_id@)) ==> (r matches Err(
                ChainError::NotFound(m),
            ) && m@ == unregistered_agent_message(trim(agent_id@))),
            trim(agent_id@).len() > 0 && self.spec_agents().has(trim(agent_id@)) ==> (r matches Ok(i) && i
                < self.spec_agents().agents@.len() && self.spec_agents().lookup(trim(agent_id@)) == Some(
                self.spec_agents().agents@[i as int],
            ) && self.spec_agents().agents@[i as int].agent_id@ == trim(agent_id@)),
    {
        proof {
            self.lemma_registry_bounds();
        }
        let id = match normalize_non_empty_label(agent_id, "agent_id") {
            Ok(s) => s,
            Err(e) => {
                return Err(e);
            },
        };
        match self.agent_registry.search(id.as_str()) {
            Ok(i) => {
                proof {
                    self.agent_registry.lemma_lookup_at(i as int);
                }
                Ok(i)
            },
            Err(_) => {
                let a = concat_str("No agent '", id.as_str());
                Err(ChainError::NotFound(concat_str(a.as_str(), "' is registered in this chain")))
            },
        }
    }

    /// Takes the record at position `i` out of the registry, leaving a
    /// placeholder with the same id.
    fn take_agent(&mut self, i: usize) -> (rec: AgentRecord)
        requires
            old(self).wf(),
            i < old(self).spec_agents().agents@.len(),
        ensures
            final(self).wf(),
            final(self).same_but_agents(old(self)),
            rec == old(self).spec_agents().agents@[i as int],
            final(self).spec_agents().agents@[i as int].agent_id@ == rec.agent_id@,
            agent_stored(old(self).spec_agents(), final(self).spec_agents(), final(self).spec_agents().agents@[i as int]),
            final(self).spec_agents().agents@.len() == old(self).spec_agents().agents@.len(),
    {
        proof {
            self.lemma_registry_bounds();
        }
        let ghost before = *self;
        let placeholder = AgentRecord::stub(self.agent_registry.agents[i].agent_id.as_str());
        let rec = self.agent_registry.replace_at(i, placeholder);
        proof {
            assert(self.agent_registry.counts_at_most(self.thoughts@.len() as int)) by {
                assert forall|q: int| 0 <= q < self.agent_registry.agents@.len() implies (#[trigger] self.agent_registry.agents@[q]).thought_count <= self.thoughts@.len() by {
                    if q != i {
                        assert(self.agent_registry.agents@[q] == before.agent_registry.agents@[q]);
                    }
                }
            }
            MentisDb::lemma_registries_replaced(&before, self);
        }
        rec
    }

    /// Puts `rec` back at position `i`, where a record with its id stands.
    fn put_agent(&mut self, i: usize, rec: AgentRecord)
        requires
            old(self).wf(),
            i < old(self).spec_agents().agents@.len(),
            old(self).spec_agents().agents@[i as int].agent_id@ == rec.agent_id@,
            rec.thought_count <= old(self).spec_thoughts().len(),
        ensures
            final(self).wf(),
            final(self).same_but_agents(old(self)),
            agent_stored(old(self).spec_agents(), final(self).spec_agents(), rec),
    {
        proof {
            self.lemma_registry_bounds();
            self.lemma_fields();
        }
        let ghost before = *self;
        self.agent_registry.replace_at(i, rec);
        proof {
            assert(self.agent_registry.counts_at_most(self.thoughts@.len() as int)) by {
                assert forall|q: int| 0 <= q < self.agent_registry.agents@.len() implies (#[trigger] self.agent_registry.agents@[q]).thought_count <= self.thoughts@.len() by {
                    if q != i {
                        assert(self.agent_registry.agents@[q] == before.agent_registry.agents@[q]);
                    }
                }
            }
            MentisDb::lemma_registries_replaced(&before, self);
        }
    }

    /// Sets or clears (when blank) the description of a registered agent
    /// and returns the updated record.
    pub fn set_agent_description(&mut self, agent_id: &str, description: Option<&str>) -> (r: Result<
        AgentRecord,
        ChainError,
    >)
        requires
            old(self).wf(),
        ensures
            final(self).wf(),
            final(self).same_but_agents(old(self)),
            trim(agent_id@).len() == 0 ==> (r matches Err(ChainError::InvalidInput(m)) && m@
                == empty_label_message("agent_id"@)),
            trim(agent_id@).len() > 0 && !old(self).spec_agents().has(trim(agent_id@)) ==> (r matches Err(
                ChainError::NotFound(m),
            ) && m@ == unregistered_agent_message(trim(agent_id@))),
            r is Err ==> final(self).spec_agents() == old(self).spec_agents(),
            trim(agent_id@).len() > 0 && old(self).spec_agents().has(trim(agent_id@)) ==> (r matches Ok(rec)
                && ({
                let base = old(self).spec_agents().lookup(trim(agent_id@)).unwrap();
                let stored = final(self).spec_agents().lookup(trim(agent_id@)).unwrap();
                &&& agent_stored(old(self).spec_agents(), final(self).spec_agents(), stored)
                &&& rec.same_fields(stored)
                &&& stored == (AgentRecord { description: stored.description, ..base })
                &&& opt_view(stored.description) == trimmed_non_empty(opt_str(description))
            })),
    {
        let i = match self.agent_position(agent_id) {
            Ok(i) => i,
            Err(e) => {
                return Err(e);
            },
        };
        proof {
            self.lemma_wf();
        }
        let mut rec = self.take_agent(i);
        rec.set_description(description);
        let out = rec.copy();
        self.put_agent(i, rec);
        Ok(out)
    }


    /// Adds an alias (trimmed) to a registered agent and returns the updated
    /// record; an alias equal to the display name or to a known alias,
    /// ignoring ASCII case, changes nothing.
    pub fn add_agent_alias(&mut self, agent_id: &str, alias: &str) -> (r: Result<AgentRecord, ChainError>)
        requires
            old(self).wf(),
        ensures
            final(self).wf(),
            final(self).same_but_agents(old(self)),
            trim(alias@).len() == 0 ==> (r matches Err(ChainError::InvalidInput(m)) && m@ == empty_label_message(
                "alias"@,
            )),
            trim(alias@).len() > 0 && trim(agent_id@).len() == 0 ==> (r matches Err(ChainError::InvalidInput(m))
                && m@ == empty_label_message("agent_id"@)),
            trim(alias@).len() > 0 && trim(agent_id@).len() > 0 && !old(self).spec_agents().has(trim(agent_id@))
                ==> (r matches Err(ChainError::NotFound(m)) && m@ == unregistered_agent_message(trim(agent_id@))),
            r is Err ==> final(self).spec_agents() == old(self).spec_agents(),
            trim(alias@).len() > 0 && trim(agent_id@).len() > 0 && old(self).spec_agents().has(trim(agent_id@))
                ==> (r matches Ok(rec) && ({
                let a = trim(alias@);
                let base = old(self).spec_agents().lookup(trim(agent_id@)).unwrap();
                let stored = final(self).spec_agents().lookup(trim(agent_id@)).unwrap();
                &&& agent_stored(old(self).spec_agents(), final(self).spec_agents(), stored)
                &&& rec.same_fields(stored)
                &&& stored == (AgentRecord { aliases: stored.aliases, ..base })
                &&& if eq_ignore_ascii_case(a, base.display_name@) || is_known_alias(base.aliases@, a) {
                    stored.aliases == base.aliases
                } else {
                    stored.aliases@ == base.aliases@.push(stored.aliases@.last()) && stored.aliases@.last()@ == a
                }
            })),
    {
        let a = match normalize_non_empty_label(alias, "alias") {
            Ok(s) => s,
            Err(e) => {
                return Err(e);
            },
        };
        let i = match self.agent_position(agent_id) {
            Ok(i) => i,
            Err(e) => {
                return Err(e);
            },
        };
        proof {
            self.lemma_wf();
            crate::text::lemma_trim_idempotent(alias@);
        }
        let mut rec = self.take_agent(i);
        rec.add_alias(a.as_str());
        let out = rec.copy();
        self.put_agent(i, rec);
        Ok(out)
    }

    /// Marks a registered agent revoked and returns the updated record.
    pub fn disable_agent(&mut self, agent_id: &str) -> (r: Result<AgentRecord, ChainError>)
        requires
            old(self).wf(),
        ensures
            final(self).wf(),
            final(self).same_but_agents(old(self)),
            trim(agent_id@).len() == 0 ==> (r matches Err(ChainError::InvalidInput(m)) && m@
                == empty_label_message("agent_id"@)),
            trim(agent_id@).len() > 0 && !old(self).spec_agents().has(trim(agent_id@)) ==> (r matches Err(
                ChainError::NotFound(m),
            ) && m@ == unregistered_agent_message(trim(agent_id@))),
            r is Err ==> final(self).spec_agents() == old(self).spec_agents(),
            trim(agent_id@).len() > 0 && old(self).spec_agents().has(trim(agent_id@)) ==> (r matches Ok(rec)
                && ({
                let base = old(self).spec_agents().lookup(trim(agent_id@)).unwrap();
                let stored = final(self).spec_agents().lookup(trim(agent_id@)).unwrap();
                &&& agent_stored(old(self).spec_agents(), final(self).spec_agents(), stored)
                &&& rec.same_fields(stored)
                &&& stored == (AgentRecord { status: AgentStatus::Revoked, ..base })
            })),
    {
        let i = match self.agent_position(agent_id) {
            Ok(i) => i,
            Err(e) => {
                return Err(e);
            },
        };
        proof {
            self.lemma_wf();
        }
        let mut rec = self.take_agent(i);
        rec.status = AgentStatus::Revoked;
        let out = rec.copy();
        self.put_agent(i, rec);
        Ok(out)
    }

    /// Registers a public key (its id trimmed) on a registered agent, added
    /// at `now`, replacing a key with the same id, and returns the updated
    /// record.
    pub fn add_agent_key(
        &mut self,
        agent_id: &str,
        key_id: &str,
        algorithm: PublicKeyAlgorithm,
        public_key_bytes: Vec<u8>,
        now: Timestamp,
    ) -> (r: Result<AgentRecord, ChainError>)
        requires
            old(self).wf(),
        ensures
            final(self).wf(),
            final(self).same_but_agents(old(self)),
            trim(key_id@).len() == 0 ==> (r matches Err(ChainError::InvalidInput(m)) && m@ == empty_label_message(
                "key_id"@,
            )),
            trim(key_id@).len() > 0 && public_key_bytes@.len() == 0 ==> (r matches Err(
                ChainError::InvalidInput(m),
            ) && m@ == empty_key_message()),
            trim(key_id@).len() > 0 && public_key_bytes@.len() > 0 && trim(agent_id@).len() == 0 ==> (r matches Err(
                ChainError::InvalidInput(m),
            ) && m@ == empty_label_message("agent_id"@)),
            trim(key_id@).len() > 0 && public_key_bytes@.len() > 0 && trim(agent_id@).len() > 0 && !old(
                self,
            ).spec_agents().has(trim(agent_id@)) ==> (r matches Err(ChainError::NotFound(m)) && m@
                == unregistered_agent_message(trim(agent_id@))),
            r is Err ==> final(self).spec_agents() == old(self).spec_agents(),
            trim(key_id@).len() > 0 && public_key_bytes@.len() > 0 && trim(agent_id@).len() > 0 && old(
                self,
            ).spec_agents().has(trim(agent_id@)) ==> (r matches Ok(rec) && ({
                let base = old(self).spec_agents().lookup(trim(agent_id@)).unwrap();
                let stored = final(self).spec_agents().lookup(trim(agent_id@)).unwrap();
                &&& agent_stored(old(self).spec_agents(), final(self).spec_agents(), stored)
                &&& rec.same_fields(stored)
                &&& stored == (AgentRecord { public_keys: stored.public_keys, ..base })
                &&& exists|k: AgentPublicKey|
                    {
                        &&& k.key_id@ == trim(key_id@)
                        &&& k.algorithm == algorithm
                        &&& k.public_key_bytes@ == public_key_bytes@
                        &&& k.added_at == now
                        &&& k.revoked_at is None
                        &&& #[trigger] key_added(base.public_keys@, stored.public_keys@, k)
                    }
            })),
    {
        let kid = match normalize_non_empty_label(key_id, "key_id") {
            Ok(s) => s,
            Err(e) => {
                return Err(e);
            },
        };
        if public_key_bytes.len() == 0 {
            return Err(ChainError::InvalidInput(String::from_str("public_key_bytes must not be empty")));
        }
        let i = match self.agent_position(agent_id) {
            Ok(i) => i,
            Err(e) => {
                return Err(e);
            },
        };
        proof {
            self.lemma_wf();
        }
        let key = AgentPublicKey { key_id: kid, algorithm, public_key_bytes, added_at: now, revoked_at: None };
        let ghost k = key;
        let mut rec = self.take_agent(i);
        rec.add_public_key(key);
        let out = rec.copy();
        self.put_agent(i, rec);
        proof {
            let base = old(self).spec_agents().lookup(trim(agent_id@)).unwrap();
            let stored = self.spec_agents().lookup(trim(agent_id@)).unwrap();
            assert(key_added(base.public_keys@, stored.public_keys@, k));
        }
        Ok(out)
    }

    /// Marks the key `key_id` (trimmed) of a registered agent revoked at
    /// `now` and returns the updated record; an agent without such a key is
    /// refused and left as it was.
    pub fn revoke_agent_key(&mut self, agent_id: &str, key_id: &str, now: Timestamp) -> (r: Result<
        AgentRecord,
        ChainError,
    >)
        requires
            old(self).wf(),
        ensures
            final(self).wf(),
            final(self).same_but_agents(old(self)),
            trim(key_id@).len() == 0 ==> (r matches Err(ChainError::InvalidInput(m)) && m@ == empty_label_message(
                "key_id"@,
            )),
            trim(key_id@).len() > 0 && trim(agent_id@).len() == 0 ==> (r matches Err(ChainError::InvalidInput(m))
                && m@ == empty_label_message("agent_id"@)),
            trim(key_id@).len() > 0 && trim(agent_id@).len() > 0 && !old(self).spec_agents().has(trim(agent_id@))
                ==> (r matches Err(ChainError::NotFound(m)) && m@ == unregistered_agent_message(trim(agent_id@))),
            trim(key_id@).len() > 0 && trim(agent_id@).len() > 0 && old(self).spec_agents().has(trim(agent_id@))
                && !has_key(old(self).spec_agents().lookup(trim(agent_id@)).unwrap().public_keys@, trim(key_id@))
                ==> (r matches Err(ChainError::NotFound(m)) && m@ == missing_key_message(trim(key_id@), agent_id@)),
            r is Err ==> final(self).spec_agents() == old(self).spec_agents(),
            trim(key_id@).len() > 0 && trim(agent_id@).len() > 0 && old(self).spec_agents().has(trim(agent_id@))
                && has_key(old(self).spec_agents().lookup(trim(agent_id@)).unwrap().public_keys@, trim(key_id@))
                ==> (r matches Ok(rec) && ({
                let base = old(self).spec_agents().lookup(trim(agent_id@)).unwrap();
                let stored = final(self).spec_agents().lookup(trim(agent_id@)).unwrap();
                &&& agent_stored(old(self).spec_agents(), final(self).spec_agents(), stored)
                &&& rec.same_fields(stored)
                &&& stored == (AgentRecord { public_keys: stored.public_keys, ..base })
                &&& key_revoked(base.public_keys@, stored.public_keys@, trim(key_id@), now)
            })),
    {
        let kid = match normalize_non_empty_label(key_id, "key_id") {
            Ok(s) => s,
            Err(e) => {
                return Err(e);
            },
        };
        let i = match self.agent_position(agent_id) {
            Ok(i) => i,
            Err(e) => {
                return Err(e);
            },
        };
        proof {
            self.lemma_wf();
            self.lemma_registry_bounds();
        }
        let found = crate::registry::agent_has_key(&self.agent_registry.agents[i], kid.as_str());
        if !found {
            let a = concat_str("No key '", kid.as_str());
            let b = concat_str(a.as_str(), "' found for agent '");
            let c = concat_str(b.as_str(), agent_id);
            return Err(ChainError::NotFound(concat_str(c.as_str(), "'")));
        }
        let mut rec = self.take_agent(i);
        rec.revoke_key(kid.as_str(), now);
        let out = rec.copy();
        self.put_agent(i, rec);
        Ok(out)
    }


    /// Adds a record for an agent that is not registered yet.
    fn insert_agent(&mut self, rec: AgentRecord)
        requires
            old(self).wf(),
            !old(self).spec_agents().has(rec.agent_id@),
            rec.thought_count == 0,
        ensures
            final(self).wf(),
            final(self).same_but_agents(old(self)),
            agent_stored(old(self).spec_agents(), final(self).spec_agents(), rec),
    {
        proof {
            self.lemma_registry_bounds();
        }
        let ghost before = *self;
        self.agent_registry.insert_new(rec);
        proof {
            MentisDb::lemma_registries_replaced(&before, self);
        }
    }

    /// Creates or updates the record of an agent (its id trimmed): a new
    /// one starts as a stub named by its id; the given display name, owner,
    /// description and status are then applied as by [`upserted`]. Returns
    /// the stored record.
    pub fn upsert_agent(
        &mut self,
        agent_id: &str,
        display_name: Option<&str>,
        owner: Option<&str>,
        description: Option<&str>,
        status: Option<AgentStatus>,
    ) -> (r: Result<AgentRecord, ChainError>)
        requires
            old(self).wf(),
        ensures
            final(self).wf(),
            final(self).same_but_agents(old(self)),
            trim(agent_id@).len() == 0 ==> (r matches Err(ChainError::InvalidInput(m)) && m@
                == empty_label_message("agent_id"@)),
            r is Err ==> final(self).spec_agents() == old(self).spec_agents(),
            trim(agent_id@).len() > 0 ==> (r matches Ok(rec) && ({
                let id = trim(agent_id@);
                let stored = final(self).spec_agents().lookup(id).unwrap();
                &&& agent_stored(old(self).spec_agents(), final(self).spec_agents(), stored)
                &&& rec.same_fields(stored)
                &&& match old(self).spec_agents().lookup(id) {
                    Some(base) => upserted(
                        base,
                        stored,
                        opt_str(display_name),
                        opt_str(owner),
                        opt_str(description),
                        status,
                    ),
                    None => exists|b: AgentRecord|
                        is_stub(b, id) && #[trigger] upserted(
                            b,
                            stored,
                            opt_str(display_name),
                            opt_str(owner),
                            opt_str(description),
                            status,
                        ),
                }
            })),
    {
        let id = match normalize_non_empty_label(agent_id, "agent_id") {
            Ok(s) => s,
            Err(e) => {
                return Err(e);
            },
        };
        proof {
            self.lemma_wf();
            self.lemma_registry_bounds();
        }
        match self.agent_registry.search(id.as_str()) {
            Ok(i) => {
                proof {
                    self.agent_registry.lemma_lookup_at(i as int);
                }
                let mut rec = self.take_agent(i);
                apply_upsert(&mut rec, display_name, owner, description, status);
                let out = rec.copy();
                self.put_agent(i, rec);
                Ok(out)
            },
            Err(_) => {
                let mut rec = AgentRecord::stub(id.as_str());
                let ghost b = rec;
                apply_upsert(&mut rec, display_name, owner, description, status);
                let out = rec.copy();
                self.insert_agent(rec);
                proof {
                    let stored = self.spec_agents().lookup(id@).unwrap();
                    assert(is_stub(b, id@));
                    assert(upserted(b, stored, opt_str(display_name), opt_str(owner), opt_str(description), status));
                }
                Ok(out)
            },
        }
    }

    /// Everything but the entity-type registry is as in `other`.
    pub open spec fn same_but_entity_types(&self, other: &MentisDb) -> bool {
        &&& self.spec_thoughts() == other.spec_thoughts()
        &&& self.spec_agents() == other.spec_agents()
        &&& self.spec_invalidated() == other.spec_invalidated()
    }

    /// The registered record of an entity type, looked up by its label.
    pub fn get_entity_type(&self, entity_type: &str) -> (r: Option<&EntityTypeRecord>)
        requires
            self.wf(),
        ensures
            r matches Some(rec) ==> self.spec_entity_types().lookup(entity_type@) == Some(*rec),
            r is None ==> self.spec_entity_types().lookup(entity_type@) is None,
    {
        proof {
            self.lemma_registry_bounds();
        }
        self.entity_type_registry.get(entity_type)
    }

    /// All registered entity-type records, in label order.
    pub fn list_entity_types(&self) -> (r: Vec<&EntityTypeRecord>)
        requires
            self.wf(),
        ensures
            r@.len() == self.spec_entity_types().entity_types@.len(),
            forall|i: int| 0 <= i < r@.len() ==> *(#[trigger] r@[i]) == self.spec_entity_types().entity_types@[i],
    {
        proof {
            self.lemma_registry_bounds();
        }
        let mut r: Vec<&EntityTypeRecord> = Vec::new();
        let mut i: usize = 0;
        while i < self.entity_type_registry.entity_types.len()
            invariant
                i <= self.entity_type_registry.entity_types@.len(),
                r@.len() == i,
                forall|j: int| 0 <= j < i ==> *(#[trigger] r@[j]) == self.entity_type_registry.entity_types@[j],
            decreases self.entity_type_registry.entity_types@.len() - i,
        {
            r.push(&self.entity_type_registry.entity_types[i]);
            i = i + 1;
        }
        r
    }

    /// Registers an entity type (its label trimmed) ahead of its first
    /// thought, as first seen at index 0 and at `now` with one thought; a
    /// registered type is left as it is. Returns the stored record.
    pub fn upsert_entity_type(&mut self, entity_type: &str, now: Timestamp) -> (r: Result<
        EntityTypeRecord,
        ChainError,
    >)
        requires
            old(self).wf(),
        ensures
            final(self).wf(),
            final(self).same_but_entity_types(old(self)),
            trim(entity_type@).len() == 0 ==> (r matches Err(ChainError::InvalidInput(m)) && m@
                == empty_label_message("entity_type"@)),
            r is Err ==> final(self).spec_entity_types() == old(self).spec_entity_types(),
            trim(entity_type@).len() > 0 && old(self).spec_entity_types().has(trim(entity_type@)) ==> (r matches Ok(
                rec,
            ) && final(self).spec_entity_types() == old(self).spec_entity_types() && old(
                self,
            ).spec_entity_types().lookup(trim(entity_type@)) == Some(rec)),
            trim(entity_type@).len() > 0 && !old(self).spec_entity_types().has(trim(entity_type@)) ==> (r matches Ok(
                rec,
            ) && ({
                let label = trim(entity_type@);
                &&& rec.entity_type@ == label
                &&& rec.first_seen_index == Some(0u64)
                &&& rec.last_seen_index == Some(0u64)
                &&& rec.first_seen_at == Some(now)
                &&& rec.last_seen_at == Some(now)
                &&& rec.thought_count == 1
                &&& forall|k: Seq<char>| #[trigger] final(self).spec_entity_types().has(k) <==> (old(
                    self,
                ).spec_entity_types().has(k) || k == label)
                &&& final(self).spec_entity_types().lookup(label) == Some(rec)
                &&& forall|k: Seq<char>| k != label ==> #[trigger] final(self).spec_entity_types().lookup(k)
                    == old(self).spec_entity_types().lookup(k)
            })),
    {
        let label = match normalize_non_empty_label(entity_type, "entity_type") {
            Ok(s) => s,
            Err(e) => {
                return Err(e);
            },
        };
        proof {
            self.lemma_registry_bounds();
        }
        match self.entity_type_registry.get(label.as_str()) {
            Some(rec) => {
                return Ok(rec.copy());
            },
            None => {},
        }
        let rec = EntityTypeRecord::new(label.as_str(), 0, now);
        let out = rec.copy();
        let ghost before = *self;
        self.entity_type_registry.insert_new(rec);
        proof {
            MentisDb::lemma_registries_replaced(&before, self);
        }
        Ok(out)
    }

}


/// Applies the given fields of an upsert to a record.
fn apply_upsert(
    rec: &mut AgentRecord,
    display_name: Option<&str>,
    owner: Option<&str>,
    description: Option<&str>,
    status: Option<AgentStatus>,
)
    ensures
        upserted(*old(rec), *final(rec), opt_str(display_name), opt_str(owner), opt_str(description), status),
{
    match display_name {
        Some(d) => rec.set_display_name(d),
        None => {},
    }
    if owner.is_some() {
        rec.set_owner(owner);
    }
    if description.is_some() {
        rec.set_description(description);
    }
    match status {
        Some(s) => {
            rec.status = s;
        },
        None => {},
    }
}


} // verus!
