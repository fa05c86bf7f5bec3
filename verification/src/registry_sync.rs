//! When the per-chain registry files and the chain's entry in the directory
//! registry are rewritten: edits are counted, and a rewrite is due when it is
//! forced, when every edit is to be durable, or when enough edits gathered.
use vstd::prelude::*;
use crate::writer::FLUSH_THRESHOLD;

verus! {

/// Number of agent-registry edits gathered before the file is rewritten.
pub const AGENT_REGISTRY_FLUSH_THRESHOLD: usize = FLUSH_THRESHOLD;

/// Number of entity-type-registry edits gathered before the file is
/// rewritten.
pub const ENTITY_TYPE_REGISTRY_FLUSH_THRESHOLD: usize = FLUSH_THRESHOLD;

/// Number of chain-registration updates gathered before the directory
/// registry is rewritten.
pub const CHAIN_REGISTRATION_FLUSH_THRESHOLD: usize = FLUSH_THRESHOLD;

/// Edits of one file not yet written.
#[derive(Debug, Clone, Copy, PartialEq, Eq, Structural)]
pub struct PendingSync {
    /// Whether an edit waits to be written.
    pub pending: bool,
    /// How many edits gathered since the last rewrite, saturating.
    pub updates: usize,
}

impl PendingSync {
    /// Nothing to write.
    pub fn new() -> (r: PendingSync)
        ensures
            r == (PendingSync { pending: false, updates: 0 }),
    {
        PendingSync { pending: false, updates: 0 }
    }

    /// Counts one edit of a chain that is stored in a directory; a chain kept
    /// only in memory has nothing to write.
    pub fn mark(&mut self, stored: bool)
        ensures
            stored ==> *final(self) == (PendingSync {
                pending: true,
                updates: if old(self).updates == usize::MAX { usize::MAX } else { (old(self).updates + 1) as usize },
            }),
            !stored ==> *final(self) == *old(self),
    {
        if stored {
            self.pending = true;
            self.updates = self.updates.saturating_add(1);
        }
    }

    /// Whether the file is to be rewritten now: an edit waits, and the
    /// rewrite is forced or `threshold` edits gathered.
    pub fn due(&self, force: bool, threshold: usize) -> (r: bool)
        ensures
            r == (self.pending && (force || self.updates >= threshold)),
    {
        self.pending && (force || self.updates >= threshold)
    }

    /// The file was rewritten.
    pub fn synced(&mut self)
        ensures
            *final(self) == (PendingSync { pending: false, updates: 0 }),
    {
        self.pending = false;
        self.updates = 0;
    }
}

/// Which rewrites an append forces: the agent registry when every write is
/// durable, on the first thought or when the append registered a new agent;
/// the entity-type registry when every write is durable or on the first
/// thought; the chain's registration on the first thought or for a new
/// agent.
pub fn append_forces(auto_flush: bool, thought_count: usize, agent_count_changed: bool) -> (r: (bool, bool, bool))
    ensures
        r.0 == (auto_flush || thought_count == 1 || agent_count_changed),
        r.1 == (auto_flush || thought_count == 1),
        r.2 == (thought_count == 1 || agent_count_changed),
{
    (auto_flush || thought_count == 1 || agent_count_changed, auto_flush || thought_count == 1, thought_count == 1
        || agent_count_changed)
}

} // verus!
