//! Pure decision logic of the node orchestrator. The orchestrator itself
//! sequences calls into the repository, consensus, governance and network
//! collaborators; the decisions it takes between those calls — which
//! agenda a vote refers to, and how recorded voters are displayed — are
//! plain functions over plain values and are verified here.

use vstd::prelude::*;

use crate::primitives::{Hash256, MemberName, PublicKey, VotingPower};
use crate::reserved::{Member, ReservedState, spec_name_of, query_name_post};

verus! {

/// Identifier of a commit in the repository, opaque to this core.
#[derive(Clone, Debug, PartialEq, Eq, Hash)]
pub struct CommitHash {
    pub bytes: Vec<u8>,
}

impl View for CommitHash {
    type V = Seq<u8>;

    open spec fn view(&self) -> Seq<u8> {
        self.bytes@
    }
}

impl CommitHash {
    /// Whether two identifiers denote the same commit.
    pub fn hash_eq(&self, other: &CommitHash) -> (r: bool)
        ensures
            r == (self@ == other@),
    {
        let r = self.bytes == other.bytes;
        proof {
            if self.bytes@.len() == other.bytes@.len()
                && (forall|i: int| 0 <= i < self.bytes@.len() ==> self.bytes@[i] == other.bytes@[i]) {
                assert(self@ =~= other@);
            }
        }
        r
    }
}

/// Why an orchestrator command was rejected.
#[derive(Clone, Copy, Debug, PartialEq, Eq)]
pub enum NodeError {
    /// The commit voted on is not among the currently valid agendas.
    UnknownAgenda,
}

/// The content hash recorded for the first valid agenda at `commit`.
pub open spec fn spec_agenda_hash_of(
    agendas: Seq<(CommitHash, Hash256)>,
    commit: Seq<u8>,
) -> Option<Seq<u8>>
    decreases agendas.len(),
{
    if agendas.len() == 0 {
        None
    } else if agendas[0].0@ == commit {
        Some(agendas[0].1@)
    } else {
        spec_agenda_hash_of(agendas.drop_first(), commit)
    }
}

/// Look up the content hash of the agenda at `agenda_commit` among the
/// currently valid agendas. The `vote` command records a vote, in the
/// repository and in governance, exactly when this lookup succeeds.
pub fn find_agenda_hash(
    agendas: &Vec<(CommitHash, Hash256)>,
    agenda_commit: &CommitHash,
) -> (r: Result<Hash256, NodeError>)
    ensures
        match r {
            Ok(h) => spec_agenda_hash_of(agendas@, agenda_commit@) == Some(h@),
            Err(e) => e == NodeError::UnknownAgenda && spec_agenda_hash_of(
                agendas@,
                agenda_commit@,
            ) is None,
        },
{
    let mut i: usize = 0;
    proof {
        assert(agendas@.skip(0) =~= agendas@);
    }
    while i < agendas.len()
        invariant
            i <= agendas@.len(),
            spec_agenda_hash_of(agendas@, agenda_commit@) == spec_agenda_hash_of(
                agendas@.skip(i as int),
                agenda_commit@,
            ),
        decreases agendas@.len() - i,
    {
        if agendas[i].0.hash_eq(agenda_commit) {
            proof {
                assert(agendas@.skip(i as int)[0] == agendas@[i as int]);
            }
            return Ok(agendas[i].1.duplicate());
        }
        proof {
            assert(agendas@.skip(i as int)[0] == agendas@[i as int]);
            assert(agendas@.skip(i as int).drop_first() =~= agendas@.skip(i as int + 1));
        }
        i += 1;
    }
    Err(NodeError::UnknownAgenda)
}

/// The recorded voters of an agenda, resolved against a snapshot: every
/// voter key that names a member becomes one row carrying the member's
/// name, unknown keys are dropped, and the order of the input is kept.
/// The voting-power column is a placeholder, always zero.
pub open spec fn spec_resolved_voters(
    ms: Seq<Member>,
    keys: Seq<PublicKey>,
) -> Seq<(Seq<char>, VotingPower)>
    decreases keys.len(),
{
    if keys.len() == 0 {
        Seq::empty()
    } else {
        let rest = spec_resolved_voters(ms, keys.drop_last());
        match spec_name_of(ms, keys.last()@) {
            Some(n) => rest.push((n, 0u64)),
            None => rest,
        }
    }
}

/// Resolve the recorded voters of an agenda into member names for
/// display, using the last cached snapshot.
pub fn resolve_voters(state: &ReservedState, voters: &Vec<PublicKey>) -> (r: Vec<
    (MemberName, VotingPower),
>)
    ensures
        r@.len() == spec_resolved_voters(state.members@, voters@).len(),
        forall|i: int|
            0 <= i < r@.len() ==> (#[trigger] r@[i].0@, r@[i].1) == spec_resolved_voters(
                state.members@,
                voters@,
            )[i],
{
    let ghost ms = state.members@;
    let mut r: Vec<(MemberName, VotingPower)> = Vec::new();
    let mut i: usize = 0;
    proof {
        assert(voters@.take(0) =~= Seq::<PublicKey>::empty());
    }
    while i < voters.len()
        invariant
            state.members@ == ms,
            i <= voters@.len(),
            r@.len() == spec_resolved_voters(ms, voters@.take(i as int)).len(),
            forall|j: int|
                0 <= j < r@.len() ==> (#[trigger] r@[j].0@, r@[j].1) == spec_resolved_voters(
                    ms,
                    voters@.take(i as int),
                )[j],
        decreases voters@.len() - i,
    {
        proof {
            assert(voters@.take(i as int + 1).drop_last() =~= voters@.take(i as int));
            assert(voters@.take(i as int + 1).last() == voters@[i as int]);
        }
        match state.query_name(&voters[i]) {
            Some(n) => {
                r.push((n, 0u64));
            },
            None => {},
        }
        i += 1;
    }
    proof {
        assert(voters@.take(i as int) =~= voters@);
    }
    r
}

} // verus!
