//! The reserved-state delegation engine: the authoritative mapping from a
//! set of members, each with intrinsic voting power and an optional
//! delegation, to the effective validator and governance sets, plus the
//! transactional rules for changing delegation.
//!
//! A `ReservedState` is an immutable snapshot. Applying a transaction is a
//! pure function from the old snapshot to either a new snapshot or a
//! rejection; a rejected transaction leaves the old snapshot untouched by
//! construction.

use vstd::prelude::*;

use crate::primitives::{MemberName, PublicKey, Signature, Hash256, VotingPower, Timestamp, BlockHeight};

verus! {

/// One network participant. `name` and `public_key` are unique across the
/// members of a well-formed `ReservedState`.
#[derive(Clone, Debug, PartialEq, Eq)]
pub struct Member {
    pub public_key: PublicKey,
    pub name: MemberName,
    pub consensus_voting_power: VotingPower,
    pub governance_voting_power: VotingPower,
    pub consensus_delegatee: Option<MemberName>,
    pub governance_delegatee: Option<MemberName>,
}

/// Header of a block, as recorded in the genesis info.
#[derive(Clone, Debug, PartialEq, Eq)]
pub struct BlockHeader {
    pub author: PublicKey,
    pub prev_block_finalization_proof: Vec<Signature>,
    pub previous_hash: Hash256,
    pub height: BlockHeight,
    pub timestamp: Timestamp,
    pub commit_merkle_root: Hash256,
    pub repository_merkle_root: Hash256,
    pub validator_set: Vec<(PublicKey, VotingPower)>,
    pub version: String,
}

/// The founding facts of the chain. Write-once: no transition changes it.
#[derive(Clone, Debug, PartialEq, Eq)]
pub struct GenesisInfo {
    pub header: BlockHeader,
    pub genesis_proof: Vec<Signature>,
    pub chain_name: String,
}

/// A request to route the delegator's voting power to the delegatee.
/// `proof` is checked by the transaction-validity layer before the engine
/// is called; the engine treats it as opaque.
#[derive(Clone, Debug, PartialEq, Eq)]
pub struct TxDelegate {
    pub delegator: PublicKey,
    pub delegatee: PublicKey,
    pub governance: bool,
    pub proof: Signature,
    pub timestamp: Timestamp,
}

/// A request to withdraw a previously established delegation.
#[derive(Clone, Debug, PartialEq, Eq)]
pub struct TxUndelegate {
    pub delegator: PublicKey,
    pub delegatee: PublicKey,
    pub governance: bool,
    pub proof: Signature,
    pub timestamp: Timestamp,
}

/// Why a delegation transaction was rejected, or why an aggregation query
/// found the snapshot itself inconsistent.
#[derive(Clone, Copy, Debug, PartialEq, Eq)]
pub enum Error {
    /// The delegator or delegatee public key resolves to no member.
    UnknownMember,
    /// The resolved delegatee name is empty.
    InvalidDelegatee,
    /// No member record was updated by a delegate transaction.
    NothingDelegated,
    /// The delegator has no delegation of the kind being withdrawn.
    NotDelegated,
    /// No member record was updated by an undelegate transaction.
    NothingUndelegated,
    /// A delegatee name referenced by a member resolves to no public key:
    /// the snapshot violates its own invariant. Distinct from the
    /// validation errors above, which only reject bad input.
    InconsistentState,
}

/// Outcome summary of updating a delegator record during a delegate
/// transaction.
pub struct TxDelegateUpdateDelegatorResponse {
    pub updated: bool,
    pub consensus_delegatee: Option<MemberName>,
    pub governance_delegatee: Option<MemberName>,
    pub delegated_consensus_voting_power: Option<VotingPower>,
    pub delegated_governance_voting_power: Option<VotingPower>,
}

/// Outcome summary of updating a delegator record during an undelegate
/// transaction.
pub struct TxUndelegateUpdateDelegatorResponse {
    pub updated: bool,
    pub consensus_delegatee: Option<MemberName>,
    pub governance_delegatee: Option<MemberName>,
    pub undelegated_consensus_voting_power: Option<VotingPower>,
    pub undelegated_governance_voting_power: Option<VotingPower>,
}

/// The authoritative snapshot: membership and delegation, plus the
/// founding facts of the chain.
#[derive(Clone, Debug, PartialEq, Eq)]
pub struct ReservedState {
    /// The genesis info. This must never be changed.
    pub genesis_info: GenesisInfo,
    /// The members.
    pub members: Vec<Member>,
    /// The leader order of the consensus rounds. It must be sorted by the
    /// name of the members.
    pub consensus_leader_order: Vec<MemberName>,
    /// The semantic version of the protocol for this network.
    pub version: String,
}

/// The name of the first member whose public key is `key`, if any.
pub open spec fn spec_name_of(ms: Seq<Member>, key: Seq<u8>) -> Option<Seq<char>>
    decreases ms.len(),
{
    if ms.len() == 0 {
        None
    } else if ms[0].public_key@ == key {
        Some(ms[0].name@)
    } else {
        spec_name_of(ms.drop_first(), key)
    }
}

/// The public key of the first member whose name is `name`, if any.
pub open spec fn spec_key_of(ms: Seq<Member>, name: Seq<char>) -> Option<Seq<u8>>
    decreases ms.len(),
{
    if ms.len() == 0 {
        None
    } else if ms[0].name@ == name {
        Some(ms[0].public_key@)
    } else {
        spec_key_of(ms.drop_first(), name)
    }
}

/// Both members keep the same identity, powers and delegations; only the
/// concrete allocations may differ.
pub open spec fn member_like(a: Member, b: Member) -> bool {
    &&& b.public_key@ == a.public_key@
    &&& b.name == a.name
    &&& b.consensus_voting_power == a.consensus_voting_power
    &&& b.governance_voting_power == a.governance_voting_power
    &&& b.consensus_delegatee == a.consensus_delegatee
    &&& b.governance_delegatee == a.governance_delegatee
}

impl Member {
    /// A fresh member record carrying the same data.
    pub fn duplicate(&self) -> (r: Member)
        ensures
            member_like(*self, r),
    {
        Member {
            public_key: self.public_key.duplicate(),
            name: self.name.clone(),
            consensus_voting_power: self.consensus_voting_power,
            governance_voting_power: self.governance_voting_power,
            consensus_delegatee: duplicate_opt_name(&self.consensus_delegatee),
            governance_delegatee: duplicate_opt_name(&self.governance_delegatee),
        }
    }
}

/// A fresh optional name equal to the given one.
fn duplicate_opt_name(o: &Option<MemberName>) -> (r: Option<MemberName>)
    ensures
        r == *o,
{
    match o {
        Some(s) => Some(s.clone()),
        None => None,
    }
}

impl ReservedState {
    /// The name of the member holding `public_key`, if any: a linear scan,
    /// first match wins. Pure and total.
    pub fn query_name(&self, public_key: &PublicKey) -> (r: Option<MemberName>)
        ensures
            query_name_post(*self, *public_key, r),
    {
        let mut i: usize = 0;
        proof {
            assert(self.members@.skip(0) =~= self.members@);
        }
        while i < self.members.len()
            invariant
                i <= self.members@.len(),
                spec_name_of(self.members@, public_key@)
                    == spec_name_of(self.members@.skip(i as int), public_key@),
            decreases self.members@.len() - i,
        {
            if self.members[i].public_key.key_eq(public_key) {
                proof {
                    assert(self.members@.skip(i as int)[0] == self.members@[i as int]);
                }
                return Some(self.members[i].name.clone());
            }
            proof {
                assert(self.members@.skip(i as int)[0] == self.members@[i as int]);
                assert(self.members@.skip(i as int).drop_first()
                    =~= self.members@.skip(i as int + 1));
            }
            i += 1;
        }
        None
    }

    /// The public key of the member named `name`, if any: a linear scan,
    /// first match wins. Pure and total.
    pub fn query_public_key(&self, name: &MemberName) -> (r: Option<PublicKey>)
        ensures
            query_public_key_post(*self, *name, r),
    {
        let mut i: usize = 0;
        proof {
            assert(self.members@.skip(0) =~= self.members@);
        }
        while i < self.members.len()
            invariant
                i <= self.members@.len(),
                spec_key_of(self.members@, name@)
                    == spec_key_of(self.members@.skip(i as int), name@),
            decreases self.members@.len() - i,
        {
            if self.members[i].name == *name {
                proof {
                    assert(self.members@.skip(i as int)[0] == self.members@[i as int]);
                }
                return Some(self.members[i].public_key.duplicate());
            }
            proof {
                assert(self.members@.skip(i as int)[0] == self.members@[i as int]);
                assert(self.members@.skip(i as int).drop_first()
                    =~= self.members@.skip(i as int + 1));
            }
            i += 1;
        }
        None
    }
}

/// Exactly what `query_name` promises of its result.
pub open spec fn query_name_post(s: ReservedState, key: PublicKey, r: Option<MemberName>) -> bool {
    match r {
        Some(n) => spec_name_of(s.members@, key@) == Some(n@),
        None => spec_name_of(s.members@, key@) is None,
    }
}

/// Exactly what `query_public_key` promises of its result.
pub open spec fn query_public_key_post(s: ReservedState, name: MemberName, r: Option<PublicKey>) -> bool {
    match r {
        Some(k) => spec_key_of(s.members@, name@) == Some(k@),
        None => spec_key_of(s.members@, name@) is None,
    }
}

/// The bucket a member's consensus (or governance) voting power is
/// credited to: its delegatee if one is set, otherwise the member itself.
/// Aggregation is single-level on purpose: a delegatee's own onward
/// delegation is never chased.
pub open spec fn bucket_of(m: Member, by_governance: bool) -> Seq<char> {
    if by_governance {
        match m.governance_delegatee {
            Some(d) => d@,
            None => m.name@,
        }
    } else {
        match m.consensus_delegatee {
            Some(d) => d@,
            None => m.name@,
        }
    }
}

/// Total consensus voting power credited to the bucket named `n`. Both
/// the validator set and the governance set sum `consensus_voting_power`;
/// the governance set only groups by the governance delegatee.
pub open spec fn bucket_power(ms: Seq<Member>, by_governance: bool, n: Seq<char>) -> int
    decreases ms.len(),
{
    if ms.len() == 0 {
        0
    } else {
        bucket_power(ms.drop_last(), by_governance, n)
            + if bucket_of(ms.last(), by_governance) == n {
                ms.last().consensus_voting_power as int
            } else {
                0
            }
    }
}

/// The distinct bucket names, in order of first occurrence.
pub open spec fn bucket_names(ms: Seq<Member>, by_governance: bool) -> Seq<Seq<char>>
    decreases ms.len(),
{
    if ms.len() == 0 {
        Seq::empty()
    } else {
        let prev = bucket_names(ms.drop_last(), by_governance);
        let b = bucket_of(ms.last(), by_governance);
        if prev.contains(b) {
            prev
        } else {
            prev.push(b)
        }
    }
}

/// The sum of every member's intrinsic consensus voting power.
pub open spec fn total_consensus_power(ms: Seq<Member>) -> int
    decreases ms.len(),
{
    if ms.len() == 0 {
        0
    } else {
        total_consensus_power(ms.drop_last()) + ms.last().consensus_voting_power
    }
}

/// Every bucket a member's power is credited to resolves to a public key.
/// This is the snapshot invariant the aggregation queries depend on; a
/// snapshot that breaks it is reported as `Error::InconsistentState`.
pub open spec fn delegatees_resolve(ms: Seq<Member>, by_governance: bool) -> bool {
    forall|i: int|
        0 <= i < ms.len() ==> (#[trigger] spec_key_of(ms, bucket_of(ms[i], by_governance))) is Some
}

/// What the aggregation queries promise of a successful result: one entry
/// per distinct bucket, in order of first occurrence, carrying the
/// bucket's resolved public key and its aggregated power.
pub open spec fn power_table_ok(
    ms: Seq<Member>,
    by_governance: bool,
    v: Seq<(PublicKey, VotingPower)>,
) -> bool {
    let names = bucket_names(ms, by_governance);
    &&& v.len() == names.len()
    &&& forall|i: int|
        0 <= i < v.len() ==> {
            &&& #[trigger] spec_key_of(ms, names[i]) == Some(v[i].0@)
            &&& v[i].1 as int == bucket_power(ms, by_governance, names[i])
        }
}

/// A bucket never holds negative power.
pub proof fn lemma_bucket_power_nonneg(ms: Seq<Member>, by_governance: bool, n: Seq<char>)
    ensures
        0 <= bucket_power(ms, by_governance, n),
    decreases ms.len(),
{
    if ms.len() > 0 {
        lemma_bucket_power_nonneg(ms.drop_last(), by_governance, n);
    }
}

/// No bucket holds more than the members' total power.
pub proof fn lemma_bucket_power_le_total(ms: Seq<Member>, by_governance: bool, n: Seq<char>)
    ensures
        bucket_power(ms, by_governance, n) <= total_consensus_power(ms),
    decreases ms.len(),
{
    if ms.len() > 0 {
        lemma_bucket_power_le_total(ms.drop_last(), by_governance, n);
    }
}

/// A prefix of the members holds at most the total power.
pub proof fn lemma_total_take_le(ms: Seq<Member>, i: int)
    requires
        0 <= i <= ms.len(),
    ensures
        total_consensus_power(ms.take(i)) <= total_consensus_power(ms),
    decreases ms.len() - i,
{
    if i == ms.len() {
        assert(ms.take(i) =~= ms);
    } else {
        lemma_total_take_le(ms, i + 1);
        assert(ms.take(i + 1).drop_last() =~= ms.take(i));
        assert(ms.take(i + 1).last() == ms[i]);
    }
}

/// Bucket names never repeat.
pub proof fn lemma_bucket_names_distinct(ms: Seq<Member>, by_governance: bool)
    ensures
        forall|j1: int, j2: int|
            #![trigger bucket_names(ms, by_governance)[j1], bucket_names(ms, by_governance)[j2]]
            0 <= j1 < j2 < bucket_names(ms, by_governance).len()
                ==> bucket_names(ms, by_governance)[j1] != bucket_names(ms, by_governance)[j2],
    decreases ms.len(),
{
    if ms.len() > 0 {
        lemma_bucket_names_distinct(ms.drop_last(), by_governance);
        let prev = bucket_names(ms.drop_last(), by_governance);
        let b = bucket_of(ms.last(), by_governance);
        if !prev.contains(b) {
            assert forall|j1: int, j2: int|
                0 <= j1 < j2 < prev.push(b).len() implies prev.push(b)[j1] != prev.push(b)[j2] by {
                if j2 == prev.len() {
                    assert(prev.push(b)[j1] == prev[j1]);
                    assert(prev.contains(prev[j1]));
                }
            }
        }
    }
}

/// Dropping the last member loses no already-present bucket name.
pub proof fn lemma_bucket_names_monotone(ms: Seq<Member>, by_governance: bool, n: Seq<char>)
    requires
        ms.len() > 0,
        bucket_names(ms.drop_last(), by_governance).contains(n),
    ensures
        bucket_names(ms, by_governance).contains(n),
{
    let prev = bucket_names(ms.drop_last(), by_governance);
    let b = bucket_of(ms.last(), by_governance);
    if !prev.contains(b) {
        let j = choose|j: int| 0 <= j < prev.len() && prev[j] == n;
        assert(prev.push(b)[j] == n);
    }
}

/// Every member's bucket appears among the bucket names.
pub proof fn lemma_member_bucket_in_names(ms: Seq<Member>, by_governance: bool)
    ensures
        forall|i: int|
            0 <= i < ms.len() ==> bucket_names(ms, by_governance).contains(
                #[trigger] bucket_of(ms[i], by_governance),
            ),
    decreases ms.len(),
{
    if ms.len() > 0 {
        lemma_member_bucket_in_names(ms.drop_last(), by_governance);
        let prev = bucket_names(ms.drop_last(), by_governance);
        let b = bucket_of(ms.last(), by_governance);
        assert forall|i: int| 0 <= i < ms.len() implies bucket_names(ms, by_governance).contains(
            bucket_of(ms[i], by_governance),
        ) by {
            if i < ms.len() - 1 {
                assert(ms.drop_last()[i] == ms[i]);
                lemma_bucket_names_monotone(ms, by_governance, bucket_of(ms[i], by_governance));
            } else {
                if prev.contains(b) {
                    lemma_bucket_names_monotone(ms, by_governance, b);
                } else {
                    assert(prev.push(b)[prev.len() as int] == b);
                }
            }
        }
    }
}

/// A name that is no bucket name receives no power.
pub proof fn lemma_unnamed_bucket_zero(ms: Seq<Member>, by_governance: bool, n: Seq<char>)
    requires
        !bucket_names(ms, by_governance).contains(n),
    ensures
        bucket_power(ms, by_governance, n) == 0,
    decreases ms.len(),
{
    if ms.len() > 0 {
        let prev = bucket_names(ms.drop_last(), by_governance);
        let b = bucket_of(ms.last(), by_governance);
        if prev.contains(n) {
            lemma_bucket_names_monotone(ms, by_governance, n);
        }
        lemma_unnamed_bucket_zero(ms.drop_last(), by_governance, n);
        if b == n {
            if prev.contains(b) {
                assert(bucket_names(ms, by_governance).contains(n));
            } else {
                assert(prev.push(b)[prev.len() as int] == b);
                assert(bucket_names(ms, by_governance).contains(n));
            }
        }
    }
}

/// Every bucket name is the bucket of some member.
pub proof fn lemma_bucket_names_are_buckets(ms: Seq<Member>, by_governance: bool, n: Seq<char>)
    requires
        bucket_names(ms, by_governance).contains(n),
    ensures
        exists|i: int| 0 <= i < ms.len() && bucket_of(ms[i], by_governance) == n,
    decreases ms.len(),
{
    let prev = bucket_names(ms.drop_last(), by_governance);
    let b = bucket_of(ms.last(), by_governance);
    if prev.contains(n) {
        lemma_bucket_names_are_buckets(ms.drop_last(), by_governance, n);
        let i = choose|i: int|
            0 <= i < ms.drop_last().len() && bucket_of(ms.drop_last()[i], by_governance) == n;
        assert(ms.drop_last()[i] == ms[i]);
        assert(bucket_of(ms[i], by_governance) == n);
    } else {
        let j = choose|j: int|
            0 <= j < bucket_names(ms, by_governance).len() && bucket_names(ms, by_governance)[j]
                == n;
        assert(prev.push(b)[j] == n);
        if j < prev.len() {
            assert(prev.contains(n));
        }
        assert(n == b);
        assert(bucket_of(ms[ms.len() - 1], by_governance) == n);
    }
}

/// Sum of the bucket powers of `ms` over the listed names.
pub open spec fn names_power_sum(
    ms: Seq<Member>,
    by_governance: bool,
    names: Seq<Seq<char>>,
) -> int
    decreases names.len(),
{
    if names.len() == 0 {
        0
    } else {
        names_power_sum(ms, by_governance, names.drop_last()) + bucket_power(
            ms,
            by_governance,
            names.last(),
        )
    }
}

/// Sum of the powers in an aggregation result.
pub open spec fn pair_power_sum(v: Seq<(PublicKey, VotingPower)>) -> int
    decreases v.len(),
{
    if v.len() == 0 {
        0
    } else {
        pair_power_sum(v.drop_last()) + v.last().1
    }
}

/// Appending one member adds its power to exactly its own bucket.
pub proof fn lemma_bucket_power_snoc(ms: Seq<Member>, m: Member, by_governance: bool, n: Seq<char>)
    ensures
        bucket_power(ms.push(m), by_governance, n) == bucket_power(ms, by_governance, n) + if bucket_of(
            m,
            by_governance,
        ) == n {
            m.consensus_voting_power as int
        } else {
            0
        },
{
    assert(ms.push(m).drop_last() =~= ms);
    assert(ms.push(m).last() == m);
}

/// Appending one member raises the sum over any duplicate-free name list
/// by its power if its bucket is listed, else not at all.
pub proof fn lemma_sum_snoc(
    ms: Seq<Member>,
    m: Member,
    by_governance: bool,
    names: Seq<Seq<char>>,
)
    requires
        forall|j1: int, j2: int|
            #![trigger names[j1], names[j2]]
            0 <= j1 < j2 < names.len() ==> names[j1] != names[j2],
    ensures
        names_power_sum(ms.push(m), by_governance, names) == names_power_sum(
            ms,
            by_governance,
            names,
        ) + if names.contains(bucket_of(m, by_governance)) {
            m.consensus_voting_power as int
        } else {
            0
        },
    decreases names.len(),
{
    let b = bucket_of(m, by_governance);
    if names.len() == 0 {
    } else {
        let rest = names.drop_last();
        assert(forall|j: int| 0 <= j < rest.len() ==> rest[j] == names[j]);
        lemma_sum_snoc(ms, m, by_governance, rest);
        lemma_bucket_power_snoc(ms, m, by_governance, names.last());
        if names.last() == b {
            // the last entry is m's bucket; by distinctness it is not in the rest
            if rest.contains(b) {
                let j = choose|j: int| 0 <= j < rest.len() && rest[j] == b;
                assert(names[j] == names[names.len() - 1]);
                assert(false);
            }
            assert(names.contains(b)) by {
                assert(names[names.len() - 1] == b);
            }
        } else {
            if names.contains(b) {
                let j = choose|j: int| 0 <= j < names.len() && names[j] == b;
                assert(j < names.len() - 1);
                assert(rest[j] == b);
                assert(rest.contains(b));
            } else {
                if rest.contains(b) {
                    let j = choose|j: int| 0 <= j < rest.len() && rest[j] == b;
                    assert(names[j] == b);
                }
            }
        }
    }
}

/// Conservation at the specification level: the bucket powers over the
/// distinct bucket names sum to the members' total consensus power.
pub proof fn lemma_bucket_sum_is_total(ms: Seq<Member>, by_governance: bool)
    ensures
        names_power_sum(ms, by_governance, bucket_names(ms, by_governance))
            == total_consensus_power(ms),
    decreases ms.len(),
{
    if ms.len() > 0 {
        let ms0 = ms.drop_last();
        let m = ms.last();
        let b = bucket_of(m, by_governance);
        let prev = bucket_names(ms0, by_governance);
        lemma_bucket_sum_is_total(ms0, by_governance);
        lemma_bucket_names_distinct(ms0, by_governance);
        assert(ms0.push(m) =~= ms);
        lemma_sum_snoc(ms0, m, by_governance, prev);
        if prev.contains(b) {
            assert(bucket_names(ms, by_governance) == prev);
        } else {
            assert(bucket_names(ms, by_governance) == prev.push(b));
            assert(prev.push(b).drop_last() =~= prev);
            assert(names_power_sum(ms, by_governance, prev.push(b)) == names_power_sum(
                ms,
                by_governance,
                prev,
            ) + bucket_power(ms, by_governance, b));
            lemma_unnamed_bucket_zero(ms0, by_governance, b);
            lemma_bucket_power_snoc(ms0, m, by_governance, b);
        }
    }
}

/// An aggregation result whose entries carry the bucket powers sums to
/// the same value as the bucket powers themselves.
pub proof fn lemma_pair_sum_pointwise(
    ms: Seq<Member>,
    by_governance: bool,
    v: Seq<(PublicKey, VotingPower)>,
    names: Seq<Seq<char>>,
)
    requires
        v.len() == names.len(),
        forall|i: int|
            0 <= i < v.len() ==> #[trigger] v[i].1 as int == bucket_power(
                ms,
                by_governance,
                names[i],
            ),
    ensures
        pair_power_sum(v) == names_power_sum(ms, by_governance, names),
    decreases v.len(),
{
    if v.len() > 0 {
        assert(forall|i: int| 0 <= i < v.len() - 1 ==> v.drop_last()[i] == v[i]);
        assert(forall|i: int| 0 <= i < names.len() - 1 ==> names.drop_last()[i] == names[i]);
        lemma_pair_sum_pointwise(ms, by_governance, v.drop_last(), names.drop_last());
        assert(v.last().1 as int == bucket_power(ms, by_governance, names.last())) by {
            assert(v[v.len() - 1].1 as int == bucket_power(
                ms,
                by_governance,
                names[v.len() - 1],
            ));
        }
    }
}

/// The bucket the member's power is credited to, as a borrowed name.
fn bucket_name_of(m: &Member, by_governance: bool) -> (r: &MemberName)
    ensures
        r@ == bucket_of(*m, by_governance),
{
    if by_governance {
        match &m.governance_delegatee {
            Some(d) => d,
            None => &m.name,
        }
    } else {
        match &m.consensus_delegatee {
            Some(d) => d,
            None => &m.name,
        }
    }
}

/// The index of the first name equal to `target`, if any.
fn find_name(names: &Vec<MemberName>, target: &MemberName) -> (r: Option<usize>)
    ensures
        match r {
            Some(j) => j < names@.len() && names@[j as int]@ == target@,
            None => forall|k: int| 0 <= k < names@.len() ==> names@[k]@ != target@,
        },
{
    let mut j: usize = 0;
    while j < names.len()
        invariant
            j <= names@.len(),
            forall|k: int| 0 <= k < j ==> names@[k]@ != target@,
        decreases names@.len() - j,
    {
        if names[j] == *target {
            return Some(j);
        }
        j += 1;
    }
    None
}

impl ReservedState {
    /// Shared worker for the two aggregation queries: fold every member's
    /// consensus voting power into its bucket, then resolve each bucket
    /// name to a public key.
    fn aggregate_power(&self, by_governance: bool) -> (r: Result<
        Vec<(PublicKey, VotingPower)>,
        Error,
    >)
        requires
            total_consensus_power(self.members@) <= u64::MAX,
        ensures
            match r {
                Ok(v) => delegatees_resolve(self.members@, by_governance) && power_table_ok(
                    self.members@,
                    by_governance,
                    v@,
                ),
                Err(e) => e == Error::InconsistentState && !delegatees_resolve(
                    self.members@,
                    by_governance,
                ),
            },
    {
        let ghost ms = self.members@;
        let mut names: Vec<MemberName> = Vec::new();
        let mut powers: Vec<VotingPower> = Vec::new();
        let mut i: usize = 0;
        proof {
            assert(ms.take(0) =~= Seq::<Member>::empty());
            lemma_bucket_names_distinct(ms, by_governance);
        }
        while i < self.members.len()
            invariant
                self.members@ == ms,
                i <= ms.len(),
                total_consensus_power(ms) <= u64::MAX,
                powers@.len() == names@.len(),
                names@.len() == bucket_names(ms.take(i as int), by_governance).len(),
                forall|j: int|
                    0 <= j < names@.len() ==> #[trigger] names@[j]@ == bucket_names(
                        ms.take(i as int),
                        by_governance,
                    )[j],
                forall|j: int|
                    0 <= j < powers@.len() ==> #[trigger] powers@[j] as int == bucket_power(
                        ms.take(i as int),
                        by_governance,
                        names@[j]@,
                    ),
            decreases ms.len() - i,
        {
            let ghost pre = ms.take(i as int);
            let ghost cur = ms.take(i as int + 1);
            let m = &self.members[i];
            let p = m.consensus_voting_power;
            let bname = bucket_name_of(m, by_governance);
            proof {
                assert(cur.drop_last() =~= pre);
                assert(cur.last() == ms[i as int]);
                assert(pre.push(ms[i as int]) =~= cur);
                lemma_bucket_names_distinct(pre, by_governance);
            }
            match find_name(&names, bname) {
                Some(j) => {
                    proof {
                        // the bucket is already listed, so the name list stays as it is
                        assert(bucket_names(pre, by_governance).contains(bname@)) by {
                            assert(bucket_names(pre, by_governance)[j as int] == names@[j as int]@);
                        }
                        assert(bucket_names(cur, by_governance) == bucket_names(
                            pre,
                            by_governance,
                        ));
                        // the incremented entry stays within the total power
                        lemma_bucket_power_snoc(pre, ms[i as int], by_governance, bname@);
                        lemma_bucket_power_le_total(cur, by_governance, bname@);
                        lemma_total_take_le(ms, i as int + 1);
                        lemma_bucket_power_nonneg(pre, by_governance, bname@);
                    }
                    let newp = powers[j] + p;
                    powers.set(j, newp);
                    proof {
                        assert forall|k: int| 0 <= k < powers@.len() implies #[trigger] powers@[k] as int
                            == bucket_power(cur, by_governance, names@[k]@) by {
                            lemma_bucket_power_snoc(pre, ms[i as int], by_governance, names@[k]@);
                            if k != j {
                                assert(names@[k]@ != bname@);
                            }
                        }
                    }
                }
                None => {
                    proof {
                        assert(!bucket_names(pre, by_governance).contains(bname@)) by {
                            if bucket_names(pre, by_governance).contains(bname@) {
                                let t = choose|t: int|
                                    0 <= t < bucket_names(pre, by_governance).len()
                                        && bucket_names(pre, by_governance)[t] == bname@;
                                assert(names@[t]@ == bname@);
                            }
                        }
                        assert(bucket_names(cur, by_governance) == bucket_names(
                            pre,
                            by_governance,
                        ).push(bname@));
                        lemma_unnamed_bucket_zero(pre, by_governance, bname@);
                    }
                    names.push(bname.clone());
                    powers.push(p);
                    proof {
                        assert forall|k: int| 0 <= k < powers@.len() implies #[trigger] powers@[k] as int
                            == bucket_power(cur, by_governance, names@[k]@) by {
                            lemma_bucket_power_snoc(pre, ms[i as int], by_governance, names@[k]@);
                            if k < powers@.len() - 1 {
                                assert(names@[k]@ != bname@);
                            }
                        }
                    }
                }
            }
            i += 1;
        }
        proof {
            assert(ms.take(i as int) =~= ms);
        }
        // resolve each bucket name to its public key
        let mut result: Vec<(PublicKey, VotingPower)> = Vec::new();
        let mut k: usize = 0;
        while k < names.len()
            invariant
                self.members@ == ms,
                k <= names@.len(),
                powers@.len() == names@.len(),
                names@.len() == bucket_names(ms, by_governance).len(),
                forall|j: int|
                    0 <= j < names@.len() ==> #[trigger] names@[j]@ == bucket_names(
                        ms,
                        by_governance,
                    )[j],
                forall|j: int|
                    0 <= j < powers@.len() ==> #[trigger] powers@[j] as int == bucket_power(
                        ms,
                        by_governance,
                        names@[j]@,
                    ),
                result@.len() == k,
                forall|t: int|
                    0 <= t < k ==> #[trigger] spec_key_of(ms, names@[t]@) == Some(result@[t].0@),
                forall|t: int| 0 <= t < k ==> #[trigger] result@[t].1 == powers@[t],
            decreases names@.len() - k,
        {
            match self.query_public_key(&names[k]) {
                Some(pk) => {
                    result.push((pk, powers[k]));
                }
                None => {
                    proof {
                        // some member's bucket is this very name, so the
                        // snapshot invariant is broken
                        lemma_bucket_names_are_buckets(ms, by_governance, names@[k as int]@);
                        let wi = choose|wi: int|
                            0 <= wi < ms.len() && bucket_of(ms[wi], by_governance)
                                == names@[k as int]@;
                        assert(spec_key_of(ms, bucket_of(ms[wi], by_governance)) is None);
                    }
                    return Err(Error::InconsistentState);
                }
            }
            k += 1;
        }
        proof {
            lemma_member_bucket_in_names(ms, by_governance);
            assert forall|i2: int| 0 <= i2 < ms.len() implies (#[trigger] spec_key_of(
                ms,
                bucket_of(ms[i2], by_governance),
            )) is Some by {
                let b = bucket_of(ms[i2], by_governance);
                assert(bucket_names(ms, by_governance).contains(b));
                let t = choose|t: int|
                    0 <= t < bucket_names(ms, by_governance).len() && bucket_names(
                        ms,
                        by_governance,
                    )[t] == b;
                assert(names@[t]@ == b);
                assert(spec_key_of(ms, names@[t]@) == Some(result@[t].0@));
            }
            assert forall|t: int| 0 <= t < result@.len() implies {
                &&& #[trigger] spec_key_of(ms, bucket_names(ms, by_governance)[t]) == Some(
                    result@[t].0@,
                )
                &&& result@[t].1 as int == bucket_power(
                    ms,
                    by_governance,
                    bucket_names(ms, by_governance)[t],
                )
            } by {
                assert(names@[t]@ == bucket_names(ms, by_governance)[t]);
                assert(spec_key_of(ms, names@[t]@) == Some(result@[t].0@));
                assert(powers@[t] as int == bucket_power(ms, by_governance, names@[t]@));
                assert(result@[t].1 == powers@[t]);
            }
        }
        Ok(result)
    }

    /// The effective consensus authority: each member's consensus voting
    /// power credited to its consensus delegatee if one is set, else to
    /// itself; one entry per distinct bucket holder.
    pub fn get_validator_set(&self) -> (r: Result<Vec<(PublicKey, VotingPower)>, Error>)
        requires
            total_consensus_power(self.members@) <= u64::MAX,
        ensures
            match r {
                Ok(v) => delegatees_resolve(self.members@, false) && power_table_ok(
                    self.members@,
                    false,
                    v@,
                ),
                Err(e) => e == Error::InconsistentState && !delegatees_resolve(
                    self.members@,
                    false,
                ),
            },
    {
        self.aggregate_power(false)
    }

    /// The effective governance authority: grouped by the governance
    /// delegatee, yet summing `consensus_voting_power`, not
    /// `governance_voting_power`. The asymmetry is observable behaviour
    /// of the protocol and is preserved exactly.
    pub fn get_governance_set(&self) -> (r: Result<Vec<(PublicKey, VotingPower)>, Error>)
        requires
            total_consensus_power(self.members@) <= u64::MAX,
        ensures
            match r {
                Ok(v) => delegatees_resolve(self.members@, true) && power_table_ok(
                    self.members@,
                    true,
                    v@,
                ),
                Err(e) => e == Error::InconsistentState && !delegatees_resolve(
                    self.members@,
                    true,
                ),
            },
    {
        self.aggregate_power(true)
    }
}

/// Both signature lists carry the same bytes.
pub open spec fn sigs_like(a: Seq<Signature>, b: Seq<Signature>) -> bool {
    &&& b.len() == a.len()
    &&& forall|i: int| 0 <= i < a.len() ==> #[trigger] b[i].bytes@ == a[i].bytes@
}

/// Both key/power lists carry the same identities and powers.
pub open spec fn pairs_like(
    a: Seq<(PublicKey, VotingPower)>,
    b: Seq<(PublicKey, VotingPower)>,
) -> bool {
    &&& b.len() == a.len()
    &&& forall|i: int| 0 <= i < a.len() ==> #[trigger] b[i].0@ == a[i].0@ && b[i].1 == a[i].1
}

/// Both headers record the same block.
pub open spec fn header_like(a: BlockHeader, b: BlockHeader) -> bool {
    &&& b.author@ == a.author@
    &&& sigs_like(a.prev_block_finalization_proof@, b.prev_block_finalization_proof@)
    &&& b.previous_hash@ == a.previous_hash@
    &&& b.height == a.height
    &&& b.timestamp == a.timestamp
    &&& b.commit_merkle_root@ == a.commit_merkle_root@
    &&& b.repository_merkle_root@ == a.repository_merkle_root@
    &&& pairs_like(a.validator_set@, b.validator_set@)
    &&& b.version == a.version
}

/// Both values record the same founding facts.
pub open spec fn genesis_like(a: GenesisInfo, b: GenesisInfo) -> bool {
    &&& header_like(a.header, b.header)
    &&& sigs_like(a.genesis_proof@, b.genesis_proof@)
    &&& b.chain_name == a.chain_name
}

/// Everything outside the member records is carried over unchanged from
/// `a` to `b`: the genesis info, the leader order and the version.
pub open spec fn same_frame(a: ReservedState, b: ReservedState) -> bool {
    &&& genesis_like(a.genesis_info, b.genesis_info)
    &&& b.consensus_leader_order@ == a.consensus_leader_order@
    &&& b.version == a.version
}

/// A fresh signature list carrying the same bytes.
fn duplicate_signatures(v: &Vec<Signature>) -> (r: Vec<Signature>)
    ensures
        sigs_like(v@, r@),
{
    let mut r: Vec<Signature> = Vec::new();
    let mut i: usize = 0;
    while i < v.len()
        invariant
            i <= v@.len(),
            r@.len() == i,
            forall|j: int| 0 <= j < i ==> #[trigger] r@[j].bytes@ == v@[j].bytes@,
        decreases v@.len() - i,
    {
        r.push(v[i].duplicate());
        i += 1;
    }
    r
}

/// A fresh key/power list carrying the same entries.
fn duplicate_pairs(v: &Vec<(PublicKey, VotingPower)>) -> (r: Vec<(PublicKey, VotingPower)>)
    ensures
        pairs_like(v@, r@),
{
    let mut r: Vec<(PublicKey, VotingPower)> = Vec::new();
    let mut i: usize = 0;
    while i < v.len()
        invariant
            i <= v@.len(),
            r@.len() == i,
            forall|j: int| 0 <= j < i ==> #[trigger] r@[j].0@ == v@[j].0@ && r@[j].1 == v@[j].1,
        decreases v@.len() - i,
    {
        r.push((v[i].0.duplicate(), v[i].1));
        i += 1;
    }
    r
}

/// A fresh name list equal to the given one.
fn duplicate_names(v: &Vec<MemberName>) -> (r: Vec<MemberName>)
    ensures
        r@ == v@,
{
    let mut r: Vec<MemberName> = Vec::new();
    let mut i: usize = 0;
    while i < v.len()
        invariant
            i <= v@.len(),
            r@.len() == i,
            forall|j: int| 0 <= j < i ==> #[trigger] r@[j] == v@[j],
        decreases v@.len() - i,
    {
        r.push(v[i].clone());
        i += 1;
    }
    proof {
        assert(r@ =~= v@);
    }
    r
}

impl BlockHeader {
    /// A fresh header recording the same block.
    pub fn duplicate(&self) -> (r: BlockHeader)
        ensures
            header_like(*self, r),
    {
        BlockHeader {
            author: self.author.duplicate(),
            prev_block_finalization_proof: duplicate_signatures(
                &self.prev_block_finalization_proof,
            ),
            previous_hash: self.previous_hash.duplicate(),
            height: self.height,
            timestamp: self.timestamp,
            commit_merkle_root: self.commit_merkle_root.duplicate(),
            repository_merkle_root: self.repository_merkle_root.duplicate(),
            validator_set: duplicate_pairs(&self.validator_set),
            version: self.version.clone(),
        }
    }
}

impl GenesisInfo {
    /// A fresh value recording the same founding facts.
    pub fn duplicate(&self) -> (r: GenesisInfo)
        ensures
            genesis_like(*self, r),
    {
        GenesisInfo {
            header: self.header.duplicate(),
            genesis_proof: duplicate_signatures(&self.genesis_proof),
            chain_name: self.chain_name.clone(),
        }
    }
}

/// The delegator record after a delegate transaction: same identity and
/// powers, consensus delegatee set to `en`, and the governance delegatee
/// set too when the transaction delegates governance (delegating
/// governance always implies delegating consensus).
pub open spec fn member_delegated_to(m0: Member, m1: Member, en: Seq<char>, governance: bool) -> bool {
    &&& m1.public_key@ == m0.public_key@
    &&& m1.name == m0.name
    &&& m1.consensus_voting_power == m0.consensus_voting_power
    &&& m1.governance_voting_power == m0.governance_voting_power
    &&& m1.consensus_delegatee matches Some(d) && d@ == en
    &&& if governance {
        m1.governance_delegatee matches Some(d) && d@ == en
    } else {
        m1.governance_delegatee == m0.governance_delegatee
    }
}

/// The delegator record after an undelegate transaction: the consensus
/// delegatee is cleared unconditionally; the governance delegatee is
/// cleared only when the transaction withdraws governance, and is left
/// as it was otherwise, even if set.
pub open spec fn member_undelegated(m0: Member, m1: Member, governance: bool) -> bool {
    &&& m1.public_key@ == m0.public_key@
    &&& m1.name == m0.name
    &&& m1.consensus_voting_power == m0.consensus_voting_power
    &&& m1.governance_voting_power == m0.governance_voting_power
    &&& m1.consensus_delegatee is None
    &&& if governance {
        m1.governance_delegatee is None
    } else {
        m1.governance_delegatee == m0.governance_delegatee
    }
}

/// Member-by-member effect of a delegate transaction whose delegator
/// resolved to `dn` and whose delegatee resolved to `en`.
pub open spec fn delegate_applied(
    ms0: Seq<Member>,
    ms1: Seq<Member>,
    dn: Seq<char>,
    en: Seq<char>,
    governance: bool,
) -> bool {
    &&& ms1.len() == ms0.len()
    &&& forall|i: int|
        0 <= i < ms0.len() ==> if ms0[i].name@ == dn {
            member_delegated_to(ms0[i], #[trigger] ms1[i], en, governance)
        } else {
            member_like(ms0[i], ms1[i])
        }
}

/// Member-by-member effect of an undelegate transaction whose delegator
/// resolved to `dn`.
pub open spec fn undelegate_applied(
    ms0: Seq<Member>,
    ms1: Seq<Member>,
    dn: Seq<char>,
    governance: bool,
) -> bool {
    &&& ms1.len() == ms0.len()
    &&& forall|i: int|
        0 <= i < ms0.len() ==> if ms0[i].name@ == dn {
            member_undelegated(ms0[i], #[trigger] ms1[i], governance)
        } else {
            member_like(ms0[i], ms1[i])
        }
}

/// A delegate transaction is accepted exactly when both keys resolve and
/// the resolved delegatee name is non-empty.
pub open spec fn delegate_allowed(ms: Seq<Member>, delegator: Seq<u8>, delegatee: Seq<u8>) -> bool {
    &&& spec_name_of(ms, delegator) is Some
    &&& spec_name_of(ms, delegatee) is Some
    &&& spec_name_of(ms, delegatee).unwrap().len() > 0
}

/// A member record can honour an undelegate request of the given kind.
pub open spec fn member_can_undelegate(m: Member, governance: bool) -> bool {
    &&& m.consensus_delegatee is Some
    &&& (governance ==> m.governance_delegatee is Some)
}

/// An undelegate transaction is accepted exactly when the delegator key
/// resolves and every member record under that name holds the delegation
/// being withdrawn.
pub open spec fn undelegate_allowed(ms: Seq<Member>, delegator: Seq<u8>, governance: bool) -> bool {
    &&& spec_name_of(ms, delegator) is Some
    &&& forall|i: int|
        0 <= i < ms.len() && ms[i].name@ == spec_name_of(ms, delegator).unwrap()
            ==> #[trigger] member_can_undelegate(ms[i], governance)
}

/// A resolved key names a member record: some member carries the
/// resolved name.
pub proof fn lemma_name_of_witness(ms: Seq<Member>, key: Seq<u8>)
    requires
        spec_name_of(ms, key) is Some,
    ensures
        exists|i: int| 0 <= i < ms.len() && ms[i].name@ == spec_name_of(ms, key).unwrap(),
    decreases ms.len(),
{
    if ms[0].public_key@ == key {
        assert(ms[0].name@ == spec_name_of(ms, key).unwrap());
    } else {
        lemma_name_of_witness(ms.drop_first(), key);
        let i = choose|i: int|
            0 <= i < ms.drop_first().len() && ms.drop_first()[i].name@ == spec_name_of(
                ms.drop_first(),
                key,
            ).unwrap();
        assert(ms.drop_first()[i] == ms[i + 1]);
        assert(ms[i + 1].name@ == spec_name_of(ms, key).unwrap());
    }
}

impl ReservedState {
    /// Apply a delegate transaction to this snapshot, producing the next
    /// snapshot. This snapshot itself is never changed; a rejection
    /// returns the error alone.
    ///
    /// Accepted exactly when delegator and delegatee both resolve and
    /// the delegatee's name is non-empty. Re-delegating while already
    /// delegated silently overwrites the previous delegatee.
    pub fn apply_delegate(&self, tx: &TxDelegate) -> (r: Result<ReservedState, Error>)
        ensures
            r is Ok <==> delegate_allowed(self.members@, tx.delegator@, tx.delegatee@),
            match r {
                Ok(s) => {
                    &&& delegate_applied(
                        self.members@,
                        s.members@,
                        spec_name_of(self.members@, tx.delegator@).unwrap(),
                        spec_name_of(self.members@, tx.delegatee@).unwrap(),
                        tx.governance,
                    )
                    &&& same_frame(*self, s)
                },
                Err(e) => match e {
                    Error::UnknownMember => spec_name_of(self.members@, tx.delegator@) is None
                        || spec_name_of(self.members@, tx.delegatee@) is None,
                    Error::InvalidDelegatee => spec_name_of(self.members@, tx.delegator@) is Some
                        && spec_name_of(self.members@, tx.delegatee@) is Some && spec_name_of(
                        self.members@,
                        tx.delegatee@,
                    ).unwrap().len() == 0,
                    _ => false,
                },
            },
    {
        let delegator_name = match self.query_name(&tx.delegator) {
            Some(n) => n,
            None => {
                return Err(Error::UnknownMember);
            },
        };
        let delegatee_name = match self.query_name(&tx.delegatee) {
            Some(n) => n,
            None => {
                return Err(Error::UnknownMember);
            },
        };
        if delegatee_name.as_str().is_empty() {
            return Err(Error::InvalidDelegatee);
        }
        let ghost ms = self.members@;
        let ghost dn = delegator_name@;
        let ghost en = delegatee_name@;
        let mut new_members: Vec<Member> = Vec::new();
        let mut updated: bool = false;
        let mut i: usize = 0;
        while i < self.members.len()
            invariant
                self.members@ == ms,
                spec_name_of(ms, tx.delegator@) == Some(dn),
                delegator_name@ == dn,
                delegatee_name@ == en,
                i <= ms.len(),
                new_members@.len() == i,
                forall|j: int|
                    0 <= j < i ==> if ms[j].name@ == dn {
                        member_delegated_to(ms[j], #[trigger] new_members@[j], en, tx.governance)
                    } else {
                        member_like(ms[j], new_members@[j])
                    },
                updated <==> exists|j: int| 0 <= j < i && #[trigger] ms[j].name@ == dn,
            decreases ms.len() - i,
        {
            let m = &self.members[i];
            if m.name == delegator_name {
                let gd: Option<MemberName> = if tx.governance {
                    Some(delegatee_name.clone())
                } else {
                    duplicate_opt_name(&m.governance_delegatee)
                };
                new_members.push(
                    Member {
                        public_key: m.public_key.duplicate(),
                        name: m.name.clone(),
                        consensus_voting_power: m.consensus_voting_power,
                        governance_voting_power: m.governance_voting_power,
                        consensus_delegatee: Some(delegatee_name.clone()),
                        governance_delegatee: gd,
                    },
                );
                updated = true;
                proof {
                    assert(ms[i as int].name@ == dn);
                }
            } else {
                new_members.push(m.duplicate());
            }
            i += 1;
        }
        if !updated {
            proof {
                lemma_name_of_witness(ms, tx.delegator@);
            }
            return Err(Error::NothingDelegated);
        }
        Ok(
            ReservedState {
                genesis_info: self.genesis_info.duplicate(),
                members: new_members,
                consensus_leader_order: duplicate_names(&self.consensus_leader_order),
                version: self.version.clone(),
            },
        )
    }

    /// Apply an undelegate transaction to this snapshot, producing the
    /// next snapshot. This snapshot itself is never changed; a rejection
    /// returns the error alone.
    ///
    /// The consensus delegation is withdrawn unconditionally; the
    /// governance delegation only when `tx.governance` is set. A
    /// consensus-only withdrawal leaves an existing governance
    /// delegation in place on purpose.
    pub fn apply_undelegate(&self, tx: &TxUndelegate) -> (r: Result<ReservedState, Error>)
        ensures
            r is Ok <==> undelegate_allowed(self.members@, tx.delegator@, tx.governance),
            match r {
                Ok(s) => {
                    &&& undelegate_applied(
                        self.members@,
                        s.members@,
                        spec_name_of(self.members@, tx.delegator@).unwrap(),
                        tx.governance,
                    )
                    &&& same_frame(*self, s)
                },
                Err(e) => match e {
                    Error::UnknownMember => spec_name_of(self.members@, tx.delegator@) is None,
                    Error::NotDelegated => spec_name_of(self.members@, tx.delegator@) is Some
                        && !undelegate_allowed(self.members@, tx.delegator@, tx.governance),
                    _ => false,
                },
            },
    {
        let delegator_name = match self.query_name(&tx.delegator) {
            Some(n) => n,
            None => {
                return Err(Error::UnknownMember);
            },
        };
        let ghost ms = self.members@;
        let ghost dn = delegator_name@;
        let mut new_members: Vec<Member> = Vec::new();
        let mut updated: bool = false;
        let mut i: usize = 0;
        while i < self.members.len()
            invariant
                self.members@ == ms,
                spec_name_of(ms, tx.delegator@) == Some(dn),
                delegator_name@ == dn,
                i <= ms.len(),
                new_members@.len() == i,
                forall|j: int|
                    0 <= j < i ==> if ms[j].name@ == dn {
                        member_undelegated(ms[j], #[trigger] new_members@[j], tx.governance)
                    } else {
                        member_like(ms[j], new_members@[j])
                    },
                forall|j: int|
                    0 <= j < i && ms[j].name@ == dn ==> #[trigger] member_can_undelegate(
                        ms[j],
                        tx.governance,
                    ),
                updated <==> exists|j: int| 0 <= j < i && #[trigger] ms[j].name@ == dn,
            decreases ms.len() - i,
        {
            let m = &self.members[i];
            if m.name == delegator_name {
                match &m.consensus_delegatee {
                    Some(_) => {},
                    None => {
                        proof {
                            assert(!member_can_undelegate(ms[i as int], tx.governance));
                        }
                        return Err(Error::NotDelegated);
                    },
                }
                let gd: Option<MemberName>;
                if tx.governance {
                    match &m.governance_delegatee {
                        Some(_) => {},
                        None => {
                            proof {
                                assert(!member_can_undelegate(ms[i as int], tx.governance));
                            }
                            return Err(Error::NotDelegated);
                        },
                    }
                    gd = None;
                } else {
                    gd = duplicate_opt_name(&m.governance_delegatee);
                }
                new_members.push(
                    Member {
                        public_key: m.public_key.duplicate(),
                        name: m.name.clone(),
                        consensus_voting_power: m.consensus_voting_power,
                        governance_voting_power: m.governance_voting_power,
                        consensus_delegatee: None,
                        governance_delegatee: gd,
                    },
                );
                updated = true;
                proof {
                    assert(ms[i as int].name@ == dn);
                }
            } else {
                new_members.push(m.duplicate());
            }
            i += 1;
        }
        if !updated {
            proof {
                lemma_name_of_witness(ms, tx.delegator@);
            }
            return Err(Error::NothingUndelegated);
        }
        Ok(
            ReservedState {
                genesis_info: self.genesis_info.duplicate(),
                members: new_members,
                consensus_leader_order: duplicate_names(&self.consensus_leader_order),
                version: self.version.clone(),
            },
        )
    }
}

} // verus!
