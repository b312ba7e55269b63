//! The laws of the delegation engine, stated and proved over the same
//! specification functions that the executable functions' contracts use.

use vstd::prelude::*;

use crate::primitives::{MemberName, PublicKey, VotingPower};
use crate::reserved::{
    Member, ReservedState, TxDelegate, TxUndelegate, bucket_names, bucket_power, delegate_allowed,
    delegate_applied, lemma_bucket_sum_is_total, lemma_pair_sum_pointwise, member_like,
    member_delegated_to, member_undelegated, names_power_sum, pair_power_sum, power_table_ok,
    query_name_post, query_public_key_post, spec_name_of, total_consensus_power,
    undelegate_applied,
};

verus! {

/// Conservation of voting power: any result that satisfies the contract
/// of `get_validator_set` or `get_governance_set` distributes exactly the
/// sum of `consensus_voting_power` over all members — the governance set
/// too, since it also sums consensus power. No power is created, lost or
/// double-counted by delegation.
pub proof fn lemma_power_conservation(
    ms: Seq<Member>,
    by_governance: bool,
    v: Seq<(PublicKey, VotingPower)>,
)
    requires
        power_table_ok(ms, by_governance, v),
    ensures
        pair_power_sum(v) == total_consensus_power(ms),
{
    let names = bucket_names(ms, by_governance);
    assert forall|i: int| 0 <= i < v.len() implies #[trigger] v[i].1 as int == bucket_power(
        ms,
        by_governance,
        names[i],
    ) by {
        assert(crate::reserved::spec_key_of(ms, names[i]) == Some(v[i].0@) && v[i].1 as int
            == bucket_power(ms, by_governance, names[i]));
    }
    lemma_pair_sum_pointwise(ms, by_governance, v, names);
    lemma_bucket_sum_is_total(ms, by_governance);
}

/// `query_name` is a pure query: it takes the snapshot by shared
/// reference, and its contract determines the answer from snapshot and
/// key alone, so repeated calls with the same input agree.
pub proof fn lemma_query_name_idempotent(
    s: ReservedState,
    key: PublicKey,
    r1: Option<MemberName>,
    r2: Option<MemberName>,
)
    requires
        query_name_post(s, key, r1),
        query_name_post(s, key, r2),
    ensures
        r1 is Some <==> r2 is Some,
        r1 is Some ==> r1.unwrap()@ == r2.unwrap()@,
{
}

/// `query_public_key` is a pure query, exactly as `query_name` is.
pub proof fn lemma_query_public_key_idempotent(
    s: ReservedState,
    name: MemberName,
    r1: Option<PublicKey>,
    r2: Option<PublicKey>,
)
    requires
        query_public_key_post(s, name, r1),
        query_public_key_post(s, name, r2),
    ensures
        r1 is Some <==> r2 is Some,
        r1 is Some ==> r1.unwrap()@ == r2.unwrap()@,
{
}

/// Two member lists that agree pointwise on keys and names resolve every
/// key to the same name.
pub proof fn lemma_name_of_like(ms0: Seq<Member>, ms1: Seq<Member>, key: Seq<u8>)
    requires
        ms1.len() == ms0.len(),
        forall|i: int|
            0 <= i < ms0.len() ==> (#[trigger] ms1[i]).public_key@ == ms0[i].public_key@
                && ms1[i].name@ == ms0[i].name@,
    ensures
        spec_name_of(ms1, key) == spec_name_of(ms0, key),
    decreases ms0.len(),
{
    if ms0.len() > 0 {
        assert forall|i: int|
            0 <= i < ms0.drop_first().len() implies (#[trigger] ms1.drop_first()[i]).public_key@
            == ms0.drop_first()[i].public_key@ && ms1.drop_first()[i].name@
            == ms0.drop_first()[i].name@ by {
            assert(ms1.drop_first()[i] == ms1[i + 1]);
            assert(ms0.drop_first()[i] == ms0[i + 1]);
            assert(ms1[i + 1].public_key@ == ms0[i + 1].public_key@ && ms1[i + 1].name@ == ms0[i
                + 1].name@);
        }
        lemma_name_of_like(ms0.drop_first(), ms1.drop_first(), key);
        assert(ms1[0].public_key@ == ms0[0].public_key@ && ms1[0].name@ == ms0[0].name@);
    }
}

/// Delegating consensus power and then withdrawing it is a round trip:
/// for a delegator with no prior consensus delegation, a consensus-only
/// delegate followed by a consensus-only undelegate restores every
/// member record — same keys, names, voting powers and delegatees as
/// before the pair of transactions.
pub proof fn lemma_consensus_delegation_round_trip(
    s0: ReservedState,
    s1: ReservedState,
    s2: ReservedState,
    txd: TxDelegate,
    txu: TxUndelegate,
)
    requires
        !txd.governance,
        !txu.governance,
        txu.delegator@ == txd.delegator@,
        delegate_allowed(s0.members@, txd.delegator@, txd.delegatee@),
        forall|i: int|
            0 <= i < s0.members@.len() && s0.members@[i].name@ == spec_name_of(
                s0.members@,
                txd.delegator@,
            ).unwrap() ==> (#[trigger] s0.members@[i]).consensus_delegatee is None,
        delegate_applied(
            s0.members@,
            s1.members@,
            spec_name_of(s0.members@, txd.delegator@).unwrap(),
            spec_name_of(s0.members@, txd.delegatee@).unwrap(),
            false,
        ),
        undelegate_applied(
            s1.members@,
            s2.members@,
            spec_name_of(s1.members@, txu.delegator@).unwrap(),
            false,
        ),
    ensures
        s2.members@.len() == s0.members@.len(),
        forall|i: int|
            0 <= i < s0.members@.len() ==> member_like(s0.members@[i], #[trigger] s2.members@[i]),
{
    let ms0 = s0.members@;
    let ms1 = s1.members@;
    let ms2 = s2.members@;
    let dn = spec_name_of(ms0, txd.delegator@).unwrap();
    assert forall|i: int|
        0 <= i < ms0.len() implies (#[trigger] ms1[i]).public_key@ == ms0[i].public_key@
        && ms1[i].name@ == ms0[i].name@ by {
        if ms0[i].name@ == dn {
            assert(member_delegated_to(
                ms0[i],
                ms1[i],
                spec_name_of(ms0, txd.delegatee@).unwrap(),
                false,
            ));
        } else {
            assert(member_like(ms0[i], ms1[i]));
        }
    }
    lemma_name_of_like(ms0, ms1, txd.delegator@);
    assert(spec_name_of(ms1, txu.delegator@) == Some(dn));
    assert forall|i: int| 0 <= i < ms0.len() implies member_like(
        ms0[i],
        #[trigger] ms2[i],
    ) by {
        if ms0[i].name@ == dn {
            assert(member_delegated_to(
                ms0[i],
                ms1[i],
                spec_name_of(ms0, txd.delegatee@).unwrap(),
                false,
            ));
            assert(ms1[i].name@ == dn);
            assert(member_undelegated(ms1[i], ms2[i], false));
            assert(ms0[i].consensus_delegatee is None);
        } else {
            assert(member_like(ms0[i], ms1[i]));
            assert(ms1[i].name@ != dn);
            assert(member_like(ms1[i], ms2[i]));
        }
    }
}

/// Withdrawing only the consensus delegation is asymmetric on purpose:
/// after delegating both kinds (governance implies consensus) and then
/// undelegating with governance unset, the delegator's consensus
/// delegatee is cleared while its governance delegatee remains set to
/// the original delegatee.
pub proof fn lemma_undelegate_keeps_governance(
    s0: ReservedState,
    s1: ReservedState,
    s2: ReservedState,
    txd: TxDelegate,
    txu: TxUndelegate,
)
    requires
        txd.governance,
        !txu.governance,
        txu.delegator@ == txd.delegator@,
        delegate_allowed(s0.members@, txd.delegator@, txd.delegatee@),
        delegate_applied(
            s0.members@,
            s1.members@,
            spec_name_of(s0.members@, txd.delegator@).unwrap(),
            spec_name_of(s0.members@, txd.delegatee@).unwrap(),
            true,
        ),
        undelegate_applied(
            s1.members@,
            s2.members@,
            spec_name_of(s1.members@, txu.delegator@).unwrap(),
            false,
        ),
    ensures
        s2.members@.len() == s0.members@.len(),
        forall|i: int|
            0 <= i < s0.members@.len() && s0.members@[i].name@ == spec_name_of(
                s0.members@,
                txd.delegator@,
            ).unwrap() ==> (#[trigger] s2.members@[i]).consensus_delegatee is None
                && (s2.members@[i].governance_delegatee matches Some(d) && d@ == spec_name_of(
                s0.members@,
                txd.delegatee@,
            ).unwrap()),
{
    let ms0 = s0.members@;
    let ms1 = s1.members@;
    let ms2 = s2.members@;
    let dn = spec_name_of(ms0, txd.delegator@).unwrap();
    let en = spec_name_of(ms0, txd.delegatee@).unwrap();
    assert forall|i: int|
        0 <= i < ms0.len() implies (#[trigger] ms1[i]).public_key@ == ms0[i].public_key@
        && ms1[i].name@ == ms0[i].name@ by {
        if ms0[i].name@ == dn {
            assert(member_delegated_to(ms0[i], ms1[i], en, true));
        } else {
            assert(member_like(ms0[i], ms1[i]));
        }
    }
    lemma_name_of_like(ms0, ms1, txd.delegator@);
    assert(spec_name_of(ms1, txu.delegator@) == Some(dn));
    assert forall|i: int|
        0 <= i < ms0.len() && ms0[i].name@ == dn implies (#[trigger] ms2[i]).consensus_delegatee
        is None && (ms2[i].governance_delegatee matches Some(d) && d@ == en) by {
        assert(member_delegated_to(ms0[i], ms1[i], en, true));
        assert(ms1[i].name@ == dn);
        assert(member_undelegated(ms1[i], ms2[i], false));
        assert(ms2[i].governance_delegatee == ms1[i].governance_delegatee);
    }
}

} // verus!
