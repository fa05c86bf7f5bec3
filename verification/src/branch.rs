//! Branching a chain from a thought of another chain: the snapshot thought
//! that opens a branch, and the parent links that lead back to its
//! ancestors.
use vstd::prelude::*;
use crate::chain::MentisDb;
use crate::hashing::{hex_digit, hex_digit_of};
use crate::kinds::{ThoughtRelationKind, ThoughtType, ThoughtRole};
use crate::model::{ChainError, Score, Thought, ThoughtInput, ThoughtRelation, HALF_RANK};
use crate::text::{concat_str, str_eq};

verus! {

/// The lowest `n` hexadecimal digits of `v`, most significant first, in
/// lowercase.
pub open spec fn hex_digits(v: nat, n: nat) -> Seq<char>
    decreases n,
{
    if n == 0 {
        Seq::empty()
    } else {
        hex_digits(v / 16, (n - 1) as nat).push(hex_digit((v % 16) as int))
    }
}

/// The hyphenated lowercase text of the UUID with this 128-bit value:
/// its 32 hexadecimal digits grouped 8-4-4-4-12.
pub open spec fn uuid_hyphenated(id: u128) -> Seq<char> {
    let h = hex_digits(id as nat, 32);
    h.subrange(0, 8) + "-"@ + h.subrange(8, 12) + "-"@ + h.subrange(12, 16) + "-"@ + h.subrange(16, 20) + "-"@
        + h.subrange(20, 32)
}

/// Appends `h[a..b]` to `out`.
fn push_range(out: &mut Vec<char>, h: &Vec<char>, a: usize, b: usize)
    requires
        a <= b <= h@.len(),
    ensures
        final(out)@ == old(out)@ + h@.subrange(a as int, b as int),
{
    let mut k: usize = a;
    while k < b
        invariant
            a <= k <= b,
            b <= h@.len(),
            out@ == old(out)@ + h@.subrange(a as int, k as int),
        decreases b - k,
    {
        out.push(h[k]);
        k = k + 1;
        assert(out@ =~= old(out)@ + h@.subrange(a as int, k as int));
    }
}

/// The hyphenated lowercase text of a UUID, as `uuid::Uuid`'s `Display`
/// renders it: the 32 hexadecimal digits of the value, grouped 8-4-4-4-12.
pub(crate) fn uuid_text(id: u128) -> (s: String)
    ensures
        s@ == uuid_hyphenated(id),
{
    let mut rev: Vec<char> = Vec::new();
    let mut v: u128 = id;
    let mut i: usize = 0;
    while i < 32
        invariant
            i <= 32,
            rev@.len() == i,
            hex_digits(id as nat, 32) == hex_digits(v as nat, (32 - i) as nat) + rev@.reverse(),
        decreases 32 - i,
    {
        let d = (v % 16) as u8;
        let c = hex_digit_of(d);
        let ghost before = rev@;
        rev.push(c);
        proof {
            assert(hex_digits(v as nat, (32 - i) as nat) == hex_digits((v / 16) as nat, (31 - i) as nat).push(
                hex_digit((v % 16) as int),
            ));
            assert(rev@.reverse() =~= seq![c] + before.reverse());
            assert(hex_digits((v / 16) as nat, (31 - i) as nat).push(hex_digit((v % 16) as int)) + before.reverse()
                =~= hex_digits((v / 16) as nat, (31 - i) as nat) + rev@.reverse());
        }
        v = v / 16;
        i = i + 1;
    }
    let mut h: Vec<char> = Vec::new();
    let mut k: usize = 32;
    while k > 0
        invariant
            k <= 32,
            rev@.len() == 32,
            h@ == rev@.subrange(k as int, 32).reverse(),
        decreases k,
    {
        k = k - 1;
        h.push(rev[k]);
        assert(h@ =~= rev@.subrange(k as int, 32).reverse());
    }
    proof {
        assert(rev@.subrange(0, 32) =~= rev@);
        assert(hex_digits(id as nat, 32) =~= h@);
    }
    let mut out: Vec<char> = Vec::new();
    push_range(&mut out, &h, 0, 8);
    out.push('-');
    push_range(&mut out, &h, 8, 12);
    out.push('-');
    push_range(&mut out, &h, 12, 16);
    out.push('-');
    push_range(&mut out, &h, 16, 20);
    out.push('-');
    push_range(&mut out, &h, 20, 32);
    proof {
        reveal_strlit("-");
        assert(out@ =~= uuid_hyphenated(id));
    }
    crate::text::string_from_chars(&out)
}

/// The refusal of a branch point that is not on the source chain.
pub open spec fn missing_branch_point_message(id: u128, source_chain_key: Seq<char>) -> Seq<char> {
    "Thought "@ + uuid_hyphenated(id) + " not found in chain '"@ + source_chain_key + "'"@
}

/// The content of the snapshot thought that opens a branch.
pub open spec fn branch_content(source_chain_key: Seq<char>, id: u128) -> Seq<char> {
    "Branch from chain '"@ + source_chain_key + "' at thought "@ + uuid_hyphenated(id)
}

/// What opening a branch of a chain with these thoughts (stored under
/// `source_chain_key`) at `branch_thought_id` gives: the branch point must be
/// on the chain and the branch must have a key; the input is a state
/// snapshot of importance one half that relates to the branch point across
/// chains.
pub open spec fn branch_input_result(
    thoughts: Seq<Thought>,
    source_chain_key: Seq<char>,
    branch_thought_id: u128,
    branch_chain_key: Seq<char>,
    r: Result<ThoughtInput, ChainError>,
) -> bool {
    &&& ((forall|p: int| 0 <= p < thoughts.len() ==> (#[trigger] thoughts[p]).id
                != branch_thought_id) ==> (r matches Err(ChainError::NotFound(m)) && m@
                == missing_branch_point_message(branch_thought_id, source_chain_key)))
    &&& ((exists|p: int| 0 <= p < thoughts.len() && (#[trigger] thoughts[p]).id
                == branch_thought_id) && branch_chain_key.len() == 0 ==> (r matches Err(
                ChainError::InvalidInput(m),
            ) && m@ == "branch_chain_key must not be empty"@))
    &&& ((exists|p: int| 0 <= p < thoughts.len() && (#[trigger] thoughts[p]).id
                == branch_thought_id) && branch_chain_key.len() > 0 ==> (r matches Ok(input) && {
                &&& input.thought_type == ThoughtType::StateSnapshot
                &&& input.content@ == branch_content(source_chain_key, branch_thought_id)
                &&& input.role == ThoughtRole::Memory
                &&& input.importance == (Score { rank: Some(HALF_RANK) })
                &&& input.confidence is None
                &&& input.tags@.len() == 0
                &&& input.concepts@.len() == 0
                &&& input.refs@.len() == 0
                &&& input.session_id is None
                &&& input.agent_name is None
                &&& input.agent_owner is None
                &&& input.signing_key_id is None
                &&& input.thought_signature is None
                &&& input.entity_type is None
                &&& input.source_episode is None
                &&& input.relations@.len() == 1
                &&& input.relations@[0].kind == ThoughtRelationKind::BranchesFrom
                &&& input.relations@[0].target_id == branch_thought_id
                &&& input.relations@[0].chain_key matches Some(k) && k@ == source_chain_key
                &&& input.relations@[0].valid_at is None
                &&& input.relations@[0].invalid_at is None
            }))
}

/// Whether a relation names the chain a branch was taken from.
pub open spec fn names_parent(r: ThoughtRelation) -> bool {
    &&& r.kind == ThoughtRelationKind::BranchesFrom
    &&& r.chain_key matches Some(k) && k@.len() > 0
}

/// The chain the first relation naming a parent points to.
pub open spec fn parent_of(relations: Seq<ThoughtRelation>) -> Option<Seq<char>>
    decreases relations.len(),
{
    if relations.len() == 0 {
        None
    } else if names_parent(relations[0]) {
        match relations[0].chain_key {
            Some(k) => Some(k@),
            None => None,
        }
    } else {
        parent_of(relations.drop_first())
    }
}

/// The chain a thought's first parent-naming relation points to.
pub fn branch_parent(t: &Thought) -> (r: Option<String>)
    ensures
        match parent_of(t.relations@) {
            Some(k) => r matches Some(s) && s@ == k,
            None => r is None,
        },
{
    let mut i: usize = 0;
    assert(t.relations@.skip(0) =~= t.relations@);
    while i < t.relations.len()
        invariant
            i <= t.relations@.len(),
            parent_of(t.relations@) == parent_of(t.relations@.skip(i as int)),
        decreases t.relations@.len() - i,
    {
        let rel = &t.relations[i];
        proof {
            assert(t.relations@.skip(i as int)[0] == t.relations@[i as int]);
            assert(t.relations@.skip(i as int).drop_first() =~= t.relations@.skip(i + 1));
        }
        if rel.kind == ThoughtRelationKind::BranchesFrom {
            match &rel.chain_key {
                Some(k) => {
                    if k.unicode_len() > 0 {
                        return Some(k.clone());
                    }
                },
                None => {},
            }
        }
        i = i + 1;
    }
    None
}

/// Whether one of `names` is `key`.
pub open spec fn is_listed(names: Seq<String>, key: Seq<char>) -> bool {
    exists|i: int| 0 <= i < names.len() && (#[trigger] names[i])@ == key
}

/// Adds `parent` to the ancestors found so far; reports whether the walk
/// goes on: it stops at a chain without parent and at a chain already
/// found (a cycle).
pub fn extend_ancestors(ancestors: &mut Vec<String>, parent: Option<String>) -> (go_on: bool)
    ensures
        parent is None ==> !go_on && final(ancestors)@ == old(ancestors)@,
        parent is Some && is_listed(old(ancestors)@, parent->0@) ==> !go_on && final(ancestors)@ == old(
            ancestors,
        )@,
        parent is Some && !is_listed(old(ancestors)@, parent->0@) ==> go_on && final(ancestors)@ == old(
            ancestors,
        )@.push(parent->0),
{
    match &parent {
        None => false,
        Some(p) => {
            let mut i: usize = 0;
            while i < ancestors.len()
                invariant
                    parent is Some,
                    parent->0 == *p,
                    ancestors@ == old(ancestors)@,
                    i <= ancestors@.len(),
                    forall|j: int| 0 <= j < i ==> (#[trigger] ancestors@[j])@ != p@,
                decreases ancestors@.len() - i,
            {
                if str_eq(ancestors[i].as_str(), p.as_str()) {
                    assert(old(ancestors)@[i as int]@ == p@);
                    return false;
                }
                i = i + 1;
            }
            ancestors.push(p.clone());
            true
        },
    }
}

impl MentisDb {
    /// The chain this chain was branched from: the parent named by its
    /// first thought, if any.
    pub fn parent_chain_key(&self) -> (r: Option<String>)
        ensures
            self.spec_thoughts().len() == 0 ==> r is None,
            self.spec_thoughts().len() > 0 ==> match parent_of(self.spec_thoughts()[0].relations@) {
                Some(k) => r matches Some(s) && s@ == k,
                None => r is None,
            },
    {
        match self.genesis_thought() {
            Some(t) => branch_parent(t),
            None => None,
        }
    }

    /// The snapshot thought that opens a branch of this chain (the source,
    /// stored under `source_chain_key`) at the thought `branch_thought_id`:
    /// a state snapshot of importance one half that relates to the branch
    /// point across chains. The branch point must be on this chain and the
    /// branch must have a key.
    pub fn branch_thought_input(
        &self,
        source_chain_key: &str,
        branch_thought_id: u128,
        branch_chain_key: &str,
    ) -> (r: Result<ThoughtInput, ChainError>)
        ensures
            branch_input_result(self.spec_thoughts(), source_chain_key@, branch_thought_id, branch_chain_key@, r),
    {
        match self.position_of_id(branch_thought_id) {
            Some(p) => {
                assert(self.spec_thoughts()[p as int].id == branch_thought_id);
            },
            None => {
                let a = concat_str("Thought ", uuid_text(branch_thought_id).as_str());
                let b = concat_str(a.as_str(), " not found in chain '");
                let c = concat_str(b.as_str(), source_chain_key);
                return Err(ChainError::NotFound(concat_str(c.as_str(), "'")));
            },
        }
        if branch_chain_key.unicode_len() == 0 {
            return Err(ChainError::InvalidInput(String::from_str("branch_chain_key must not be empty")));
        }
        let a = concat_str("Branch from chain '", source_chain_key);
        let b = concat_str(a.as_str(), "' at thought ");
        let content = concat_str(b.as_str(), uuid_text(branch_thought_id).as_str());
        let mut relations: Vec<ThoughtRelation> = Vec::new();
        relations.push(
            ThoughtRelation {
                kind: ThoughtRelationKind::BranchesFrom,
                target_id: branch_thought_id,
                chain_key: Some(String::from_str(source_chain_key)),
                valid_at: None,
                invalid_at: None,
            },
        );
        Ok(ThoughtInput::new(ThoughtType::StateSnapshot, content).with_relations(relations))
    }
}

/// The snapshot thought that opens the branch `branch_chain_key` of the
/// chain `source` (stored under `source_key`) at `branch_thought_id`. The
/// branch point must be on the source chain and the branch must have a key,
/// checked in that order as [`MentisDb::branch_thought_input`] checks them;
/// then a branch, being a new chain, must not share the source's key.
/// Otherwise the input is what [`MentisDb::branch_thought_input`] gives.
pub fn branch_plan(source: &MentisDb, source_key: &str, branch_thought_id: u128, branch_chain_key: &str) -> (r: Result<ThoughtInput, ChainError>)
    ensures
        ({
            &&& exists|p: int| 0 <= p < source.spec_thoughts().len() && (#[trigger] source.spec_thoughts()[p]).id
                == branch_thought_id
            &&& branch_chain_key@.len() > 0
            &&& branch_chain_key@ == source_key@
        }) ==> (r matches Err(ChainError::InvalidInput(m)) && m@
            == "branch_chain_key must differ from the source chain key"@),
        !({
            &&& exists|p: int| 0 <= p < source.spec_thoughts().len() && (#[trigger] source.spec_thoughts()[p]).id
                == branch_thought_id
            &&& branch_chain_key@.len() > 0
            &&& branch_chain_key@ == source_key@
        }) ==> branch_input_result(source.spec_thoughts(), source_key@, branch_thought_id, branch_chain_key@, r),
{
    let found = source.position_of_id(branch_thought_id);
    if found.is_some() && branch_chain_key.unicode_len() > 0 && str_eq(branch_chain_key, source_key) {
        return Err(ChainError::InvalidInput(String::from_str("branch_chain_key must differ from the source chain key")));
    }
    source.branch_thought_input(source_key, branch_thought_id, branch_chain_key)
}

} // verus!
