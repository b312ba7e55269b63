use simperby_core::primitives::{Hash256, PrivateKey, PublicKey, Signature};
use simperby_core::reserved::{
    BlockHeader, Error, GenesisInfo, Member, ReservedState, TxDelegate, TxUndelegate,
};
use std::collections::HashSet;

fn generate_keypair(seed: String) -> (PublicKey, PrivateKey) {
    let mut pk = seed.clone().into_bytes();
    pk.push(b'p');
    let mut sk = seed.into_bytes();
    sk.push(b's');
    (PublicKey { bytes: pk }, PrivateKey { bytes: sk })
}

fn sign(private_key: &PrivateKey) -> Signature {
    Signature {
        bytes: private_key.bytes.clone(),
    }
}

fn create_member(keys: Vec<(PublicKey, PrivateKey)>, member_num: u8) -> Member {
    Member {
        public_key: keys[member_num as usize].0.clone(),
        name: format!("member-{member_num:04}"),
        governance_voting_power: 1,
        consensus_voting_power: 1,
        governance_delegatee: None,
        consensus_delegatee: None,
    }
}

fn create_member_with_consensus_delegation(
    keys: Vec<(PublicKey, PrivateKey)>,
    member_num: u8,
    delegatee_member_num: u8,
) -> Member {
    Member {
        public_key: keys[member_num as usize].0.clone(),
        name: format!("member-{member_num:04}"),
        governance_voting_power: 1,
        consensus_voting_power: 1,
        governance_delegatee: None,
        consensus_delegatee: Some(format!("member-{delegatee_member_num:04}")),
    }
}

fn create_member_with_governance_delegation(
    keys: Vec<(PublicKey, PrivateKey)>,
    member_num: u8,
    delegatee_member_num: u8,
) -> Member {
    Member {
        public_key: keys[member_num as usize].0.clone(),
        name: format!("member-{member_num:04}"),
        governance_voting_power: 1,
        consensus_voting_power: 1,
        governance_delegatee: Some(format!("member-{delegatee_member_num:04}")),
        consensus_delegatee: None,
    }
}

fn create_genesis_info(keys: &[(PublicKey, PrivateKey)], members: &[Member]) -> GenesisInfo {
    let genesis_header = BlockHeader {
        author: PublicKey::zero(),
        prev_block_finalization_proof: Vec::new(),
        previous_hash: Hash256::zero(),
        height: 0,
        timestamp: 0,
        commit_merkle_root: Hash256::zero(),
        repository_merkle_root: Hash256::zero(),
        validator_set: members
            .iter()
            .map(|member| (member.public_key.clone(), member.consensus_voting_power))
            .collect::<Vec<_>>(),
        version: "0.1.0".to_string(),
    };
    GenesisInfo {
        header: genesis_header,
        genesis_proof: keys
            .iter()
            .map(|(_, private_key)| sign(private_key))
            .collect::<Vec<_>>(),
        chain_name: "test-chain".to_string(),
    }
}

#[test]
fn basic_validator_set1() {
    let keys = (0..4)
        .map(|i| generate_keypair(format!("{i}")))
        .collect::<Vec<_>>();
    let members = vec![
        create_member_with_consensus_delegation(keys.clone(), 0, 3),
        create_member_with_consensus_delegation(keys.clone(), 1, 3),
        create_member_with_consensus_delegation(keys.clone(), 2, 3),
        create_member(keys.clone(), 3),
    ];
    let genesis_info = create_genesis_info(&keys, &members);
    let reserved_state = ReservedState {
        genesis_info,
        members,
        consensus_leader_order: vec!["member-0003".to_string()],
        version: "0.1.0".to_string(),
    };
    assert_eq!(
        reserved_state.get_validator_set().unwrap(),
        vec![(keys[3].0.clone(), 4),]
    );
}

#[test]
fn basic_validator_set2() {
    let keys = (0..4)
        .map(|i| generate_keypair(format!("{i}")))
        .collect::<Vec<_>>();
    let members = vec![
        create_member_with_consensus_delegation(keys.clone(), 0, 1),
        create_member(keys.clone(), 1),
        create_member_with_consensus_delegation(keys.clone(), 2, 3),
        create_member(keys.clone(), 3),
    ];
    let genesis_info = create_genesis_info(&keys, &members);
    let reserved_state = ReservedState {
        genesis_info,
        members,
        consensus_leader_order: vec!["member-0001".to_string(), "member-0003".to_string()],
        version: "0.1.0".to_string(),
    };
    assert_eq!(
        reserved_state.get_validator_set().unwrap(),
        vec![(keys[1].0.clone(), 2), (keys[3].0.clone(), 2),]
    );
}

#[test]
fn basic_governance_set1() {
    let keys = (0..4)
        .map(|i| generate_keypair(format!("{i}")))
        .collect::<Vec<_>>();
    let members = vec![
        create_member_with_governance_delegation(keys.clone(), 0, 3),
        create_member_with_governance_delegation(keys.clone(), 1, 3),
        create_member_with_governance_delegation(keys.clone(), 2, 3),
        create_member(keys.clone(), 3),
    ];
    let genesis_info = create_genesis_info(&keys, &members);
    let reserved_state = ReservedState {
        genesis_info,
        members,
        consensus_leader_order: (0..4).map(|i| format!("member-{i:04}")).collect::<Vec<_>>(),
        version: "0.1.0".to_string(),
    };
    assert_eq!(
        reserved_state.get_governance_set().unwrap(),
        vec![(keys[3].0.clone(), 4),]
    );
}

#[test]
fn basic_governance_set2() {
    let keys = (0..4)
        .map(|i| generate_keypair(format!("{i}")))
        .collect::<Vec<_>>();
    let members = vec![
        create_member_with_governance_delegation(keys.clone(), 0, 1),
        create_member(keys.clone(), 1),
        create_member_with_governance_delegation(keys.clone(), 2, 3),
        create_member(keys.clone(), 3),
    ];
    let genesis_info = create_genesis_info(&keys, &members);
    let reserved_state = ReservedState {
        genesis_info,
        members,
        consensus_leader_order: (0..4).map(|i| format!("member-{i:04}")).collect::<Vec<_>>(),
        version: "0.1.0".to_string(),
    };
    assert_eq!(
        reserved_state
            .get_governance_set()
            .unwrap()
            .into_iter()
            .collect::<HashSet<_>>(),
        vec![(keys[1].0.clone(), 2), (keys[3].0.clone(), 2),]
            .into_iter()
            .collect::<HashSet<_>>()
    );
}

fn setup_tx_delegate_test() -> (PublicKey, PrivateKey, PublicKey, Member, ReservedState) {
    let keys = (0..4)
        .map(|i| generate_keypair(format!("{i}")))
        .collect::<Vec<_>>();

    let delegator_public_key = keys[0].0.clone();
    let delegator_private_key = keys[0].1.clone();
    let delegatee_public_key = keys[1].0.clone();

    let delegator = Member {
        public_key: delegator_public_key.clone(),
        name: "delegator".to_string(),
        consensus_voting_power: 10,
        governance_voting_power: 10,
        consensus_delegatee: None,
        governance_delegatee: None,
    };

    let delegatee = Member {
        public_key: delegatee_public_key.clone(),
        name: "delegatee".to_string(),
        consensus_voting_power: 20,
        governance_voting_power: 20,
        consensus_delegatee: None,
        governance_delegatee: None,
    };

    let members = vec![
        delegator.clone(),
        delegatee.clone(),
        create_member(keys.clone(), 2),
    ];

    let genesis_info = create_genesis_info(&keys, &members);

    let state = ReservedState {
        genesis_info,
        members: vec![delegator.clone(), delegatee.clone()],
        consensus_leader_order: vec![delegator.name, delegatee.name.to_string()],
        version: "".to_string(),
    };
    (
        delegator_public_key,
        delegator_private_key,
        delegatee_public_key,
        delegatee,
        state,
    )
}

#[test]
fn test_apply_delegate_on_governance_success() {
    // given
    let (delegator_public_key, delegator_private_key, delegatee_public_key, delegatee, state) =
        setup_tx_delegate_test();

    // when
    let proof = sign(&delegator_private_key);
    let tx = TxDelegate {
        delegator: delegator_public_key,
        delegatee: delegatee_public_key,
        governance: true,
        proof,
        timestamp: 0,
    };
    let new_state = state.apply_delegate(&tx);

    // then
    assert!(new_state.is_ok());
    let new_state = new_state.unwrap();
    let new_state_validator_set = new_state.get_validator_set();
    let new_state_governance_set = new_state.get_governance_set();

    assert_eq!(
        new_state.members[0].governance_delegatee.as_ref().unwrap(),
        &delegatee.name
    );
    assert_eq!(new_state.members[0].consensus_voting_power, 10);
    assert_eq!(new_state.members[0].governance_voting_power, 10);
    assert_eq!(
        new_state.members[0].consensus_delegatee,
        Some(delegatee.clone().name)
    );
    assert_eq!(
        new_state.members[0].governance_delegatee,
        Some(delegatee.clone().name)
    );
    assert_eq!(new_state.members[1].consensus_voting_power, 20);
    assert_eq!(new_state.members[1].governance_voting_power, 20);

    assert_eq!(
        new_state_validator_set
            .unwrap()
            .into_iter()
            .find(|v| v.0 == delegatee.public_key)
            .unwrap()
            .1,
        30
    );

    assert_eq!(
        new_state_governance_set
            .unwrap()
            .into_iter()
            .find(|v| v.0 == delegatee.public_key)
            .unwrap()
            .1,
        30
    );
}

#[test]
fn test_apply_delegate_on_consensus_success() {
    // given
    let (delegator_public_key, delegator_private_key, delegatee_public_key, delegatee, state) =
        setup_tx_delegate_test();

    // when
    let proof = sign(&delegator_private_key);
    let tx = TxDelegate {
        delegator: delegator_public_key,
        delegatee: delegatee_public_key,
        governance: false,
        proof,
        timestamp: 0,
    };
    let new_state = state.apply_delegate(&tx);

    // then
    assert!(new_state.is_ok());
    let new_state = new_state.unwrap();
    let new_state_validator_set = new_state.get_validator_set();
    let new_state_governance_set = new_state.get_governance_set();

    assert_eq!(
        new_state.members[0].consensus_delegatee.as_ref().unwrap(),
        &delegatee.name
    );
    assert_eq!(new_state.members[0].consensus_voting_power, 10);
    assert_eq!(new_state.members[0].governance_voting_power, 10);
    assert_eq!(
        new_state.members[0].consensus_delegatee,
        Some(delegatee.name.clone())
    );
    assert_eq!(new_state.members[0].governance_delegatee, None);
    assert_eq!(new_state.members[1].consensus_voting_power, 20);
    assert_eq!(new_state.members[1].governance_voting_power, 20);

    assert_eq!(
        new_state_validator_set
            .unwrap()
            .into_iter()
            .find(|v| v.0 == delegatee.public_key)
            .unwrap()
            .1,
        30
    );

    assert_eq!(
        new_state_governance_set
            .unwrap()
            .into_iter()
            .find(|v| v.0 == delegatee.public_key)
            .unwrap()
            .1,
        20
    );
}

fn setup_tx_undelegate_on_governance_test() -> (PublicKey, PrivateKey, PublicKey, Member, ReservedState)
{
    let keys = (0..4)
        .map(|i| generate_keypair(format!("{i}")))
        .collect::<Vec<_>>();

    let delegator_public_key = keys[0].0.clone();
    let delegator_private_key = keys[0].1.clone();
    let delegatee_public_key = keys[1].0.clone();

    let delegator = Member {
        public_key: delegator_public_key.clone(),
        name: "delegator".to_string(),
        consensus_voting_power: 10,
        governance_voting_power: 10, // delegated
        consensus_delegatee: Some("delegatee".to_string()),
        governance_delegatee: Some("delegatee".to_string()),
    };

    let delegatee = Member {
        public_key: delegatee_public_key.clone(),
        name: "delegatee".to_string(),
        consensus_voting_power: 20,
        governance_voting_power: 20,
        consensus_delegatee: None,
        governance_delegatee: None,
    };

    let members = vec![
        delegator.clone(),
        delegatee.clone(),
        create_member(keys.clone(), 2),
    ];

    let genesis_info = create_genesis_info(&keys, &members);

    let state = ReservedState {
        genesis_info,
        members: vec![delegator.clone(), delegatee.clone()],
        consensus_leader_order: vec![delegator.name, delegatee.name.to_string()],
        version: "".to_string(),
    };
    (
        delegator_public_key,
        delegator_private_key,
        delegatee_public_key,
        delegatee,
        state,
    )
}

#[test]
fn test_apply_undelegate_on_governance_success() {
    // given
    let (delegator_public_key, delegator_private_key, delegatee_public_key, delegatee, state) =
        setup_tx_undelegate_on_governance_test();
    let _ = delegatee_public_key;

    // when
    let proof = sign(&delegator_private_key);
    let tx = TxUndelegate {
        delegator: delegator_public_key,
        delegatee: delegatee.public_key.clone(),
        governance: true,
        proof,
        timestamp: 0,
    };
    let new_state = state.apply_undelegate(&tx);

    // then
    assert!(new_state.is_ok());
    let new_state = new_state.unwrap();
    let new_state_validator_set = new_state.get_validator_set();
    let new_state_governance_set = new_state.get_governance_set();

    assert_eq!(new_state.members[0].consensus_voting_power, 10);
    assert_eq!(new_state.members[0].governance_voting_power, 10);
    assert_eq!(new_state.members[0].consensus_delegatee, None);
    assert_eq!(new_state.members[0].governance_delegatee, None);
    assert_eq!(new_state.members[1].consensus_voting_power, 20);
    assert_eq!(new_state.members[1].governance_voting_power, 20);

    assert_eq!(
        new_state_validator_set
            .unwrap()
            .into_iter()
            .find(|v| v.0 == delegatee.public_key)
            .unwrap()
            .1,
        20
    );

    assert_eq!(
        new_state_governance_set
            .unwrap()
            .into_iter()
            .find(|v| v.0 == delegatee.public_key)
            .unwrap()
            .1,
        20
    );
}

fn setup_tx_undelegate_on_consensus_test() -> (PublicKey, PrivateKey, PublicKey, Member, ReservedState)
{
    let keys = (0..4)
        .map(|i| generate_keypair(format!("{i}")))
        .collect::<Vec<_>>();

    let delegator_public_key = keys[0].0.clone();
    let delegator_private_key = keys[0].1.clone();
    let delegatee_public_key = keys[1].0.clone();

    let delegator = Member {
        public_key: delegator_public_key.clone(),
        name: "delegator".to_string(),
        consensus_voting_power: 10, // delegated
        governance_voting_power: 10,
        consensus_delegatee: Some("delegatee".to_string()),
        governance_delegatee: None,
    };

    let delegatee = Member {
        public_key: delegatee_public_key.clone(),
        name: "delegatee".to_string(),
        consensus_voting_power: 10,
        governance_voting_power: 10,
        consensus_delegatee: None,
        governance_delegatee: None,
    };

    let members = vec![
        delegator.clone(),
        delegatee.clone(),
        create_member(keys.clone(), 2),
    ];

    let genesis_info = create_genesis_info(&keys, &members);

    let state = ReservedState {
        genesis_info,
        members: vec![delegator.clone(), delegatee.clone()],
        consensus_leader_order: vec![delegator.name, delegatee.name.to_string()],
        version: "".to_string(),
    };
    (
        delegator_public_key,
        delegator_private_key,
        delegatee_public_key,
        delegatee,
        state,
    )
}

#[test]
fn test_apply_undelegate_on_consensus_success() {
    // given
    let (delegator_public_key, delegator_private_key, delegatee_public_key, delegatee, state) =
        setup_tx_undelegate_on_consensus_test();
    let _ = delegatee_public_key;

    // when
    let proof = sign(&delegator_private_key);
    let tx = TxUndelegate {
        delegator: delegator_public_key,
        delegatee: delegatee.public_key.clone(),
        governance: false,
        proof,
        timestamp: 0,
    };
    let new_state = state.apply_undelegate(&tx);

    // then
    assert!(new_state.is_ok());
    let new_state = new_state.unwrap();
    let new_state_validator_set = new_state.get_validator_set();
    let new_state_governance_set = new_state.get_governance_set();

    assert_eq!(new_state.members[0].governance_delegatee, None);
    assert_eq!(new_state.members[0].consensus_delegatee, None);
    assert_eq!(new_state.members[0].consensus_voting_power, 10);
    assert_eq!(new_state.members[0].governance_voting_power, 10);
    assert_eq!(new_state.members[1].consensus_voting_power, 10);
    assert_eq!(new_state.members[1].governance_voting_power, 10);

    assert_eq!(
        new_state_validator_set
            .unwrap()
            .into_iter()
            .find(|v| v.0 == delegatee.public_key)
            .unwrap()
            .1,
        10
    );

    assert_eq!(
        new_state_governance_set
            .unwrap()
            .into_iter()
            .find(|v| v.0 == delegatee.public_key)
            .unwrap()
            .1,
        10
    );
}

#[test]
fn rejects_unknown_delegator() {
    let (_, delegator_private_key, delegatee_public_key, _, state) = setup_tx_delegate_test();
    let stranger = generate_keypair("stranger".to_string()).0;
    let before = state.clone();
    let tx = TxDelegate {
        delegator: stranger,
        delegatee: delegatee_public_key,
        governance: true,
        proof: sign(&delegator_private_key),
        timestamp: 0,
    };
    assert_eq!(state.apply_delegate(&tx), Err(Error::UnknownMember));
    assert_eq!(state, before);
}

#[test]
fn rejects_unknown_delegatee() {
    let (delegator_public_key, delegator_private_key, _, _, state) = setup_tx_delegate_test();
    let stranger = generate_keypair("stranger".to_string()).0;
    let before = state.clone();
    let tx = TxDelegate {
        delegator: delegator_public_key,
        delegatee: stranger,
        governance: false,
        proof: sign(&delegator_private_key),
        timestamp: 0,
    };
    assert_eq!(state.apply_delegate(&tx), Err(Error::UnknownMember));
    assert_eq!(state, before);
}

#[test]
fn rejects_empty_delegatee_name() {
    let (delegator_public_key, delegator_private_key, delegatee_public_key, _, mut state) =
        setup_tx_delegate_test();
    state.members[1].name = "".to_string();
    let before = state.clone();
    let tx = TxDelegate {
        delegator: delegator_public_key,
        delegatee: delegatee_public_key,
        governance: false,
        proof: sign(&delegator_private_key),
        timestamp: 0,
    };
    assert_eq!(state.apply_delegate(&tx), Err(Error::InvalidDelegatee));
    assert_eq!(state, before);
}

#[test]
fn rejects_undelegate_without_delegation() {
    let (delegator_public_key, delegator_private_key, delegatee_public_key, _, state) =
        setup_tx_delegate_test();
    let before = state.clone();
    let tx = TxUndelegate {
        delegator: delegator_public_key,
        delegatee: delegatee_public_key,
        governance: false,
        proof: sign(&delegator_private_key),
        timestamp: 0,
    };
    assert_eq!(state.apply_undelegate(&tx), Err(Error::NotDelegated));
    assert_eq!(state, before);
}

#[test]
fn rejects_governance_undelegate_without_governance_delegation() {
    let (delegator_public_key, delegator_private_key, delegatee_public_key, _, state) =
        setup_tx_undelegate_on_consensus_test();
    let _ = delegatee_public_key;
    let tx = TxUndelegate {
        delegator: delegator_public_key,
        delegatee: state.members[1].public_key.clone(),
        governance: true,
        proof: sign(&delegator_private_key),
        timestamp: 0,
    };
    assert_eq!(state.apply_undelegate(&tx), Err(Error::NotDelegated));
}

#[test]
fn rejects_undelegate_by_unknown_delegator() {
    let (_, delegator_private_key, delegatee_public_key, _, state) =
        setup_tx_undelegate_on_governance_test();
    let stranger = generate_keypair("stranger".to_string()).0;
    let tx = TxUndelegate {
        delegator: stranger,
        delegatee: delegatee_public_key,
        governance: true,
        proof: sign(&delegator_private_key),
        timestamp: 0,
    };
    assert_eq!(state.apply_undelegate(&tx), Err(Error::UnknownMember));
}

#[test]
fn aggregation_reports_dangling_delegatee() {
    let keys = (0..4)
        .map(|i| generate_keypair(format!("{i}")))
        .collect::<Vec<_>>();
    let mut members = vec![create_member(keys.clone(), 0), create_member(keys.clone(), 1)];
    members[0].consensus_delegatee = Some("member-9999".to_string());
    let genesis_info = create_genesis_info(&keys, &members);
    let state = ReservedState {
        genesis_info,
        members,
        consensus_leader_order: vec!["member-0000".to_string(), "member-0001".to_string()],
        version: "0.1.0".to_string(),
    };
    assert_eq!(state.get_validator_set(), Err(Error::InconsistentState));
    // the governance view is untouched by the dangling consensus delegatee
    assert!(state.get_governance_set().is_ok());
}

#[test]
fn conservation_of_voting_power() {
    let keys = (0..4)
        .map(|i| generate_keypair(format!("{i}")))
        .collect::<Vec<_>>();
    let mut members = vec![
        create_member_with_consensus_delegation(keys.clone(), 0, 1),
        create_member(keys.clone(), 1),
        create_member_with_governance_delegation(keys.clone(), 2, 3),
        create_member(keys.clone(), 3),
    ];
    members[0].consensus_voting_power = 7;
    members[1].consensus_voting_power = 11;
    members[2].consensus_voting_power = 13;
    members[3].consensus_voting_power = 2;
    let total: u64 = members.iter().map(|m| m.consensus_voting_power).sum();
    let genesis_info = create_genesis_info(&keys, &members);
    let state = ReservedState {
        genesis_info,
        members,
        consensus_leader_order: (0..4).map(|i| format!("member-{i:04}")).collect::<Vec<_>>(),
        version: "0.1.0".to_string(),
    };
    let validator_sum: u64 = state
        .get_validator_set()
        .unwrap()
        .into_iter()
        .map(|(_, p)| p)
        .sum();
    let governance_sum: u64 = state
        .get_governance_set()
        .unwrap()
        .into_iter()
        .map(|(_, p)| p)
        .sum();
    assert_eq!(validator_sum, total);
    // the governance set sums consensus power as well, so it conserves
    // the very same total even though governance powers differ
    assert_eq!(governance_sum, total);
}

#[test]
fn queries_are_idempotent() {
    let (delegator_public_key, _, _, _, state) = setup_tx_delegate_test();
    let first = state.query_name(&delegator_public_key);
    let second = state.query_name(&delegator_public_key);
    assert_eq!(first, Some("delegator".to_string()));
    assert_eq!(first, second);

    let name = "delegatee".to_string();
    let k1 = state.query_public_key(&name);
    let k2 = state.query_public_key(&name);
    assert_eq!(k1, Some(state.members[1].public_key.clone()));
    assert_eq!(k1, k2);

    let unknown = generate_keypair("stranger".to_string()).0;
    assert_eq!(state.query_name(&unknown), None);
    assert_eq!(state.query_public_key(&"nobody".to_string()), None);
}

#[test]
fn consensus_delegation_round_trip() {
    let (delegator_public_key, delegator_private_key, delegatee_public_key, _, state) =
        setup_tx_delegate_test();
    let txd = TxDelegate {
        delegator: delegator_public_key.clone(),
        delegatee: delegatee_public_key.clone(),
        governance: false,
        proof: sign(&delegator_private_key),
        timestamp: 0,
    };
    let delegated = state.apply_delegate(&txd).unwrap();
    assert_eq!(
        delegated.members[0].consensus_delegatee,
        Some("delegatee".to_string())
    );
    let txu = TxUndelegate {
        delegator: delegator_public_key,
        delegatee: delegatee_public_key,
        governance: false,
        proof: sign(&delegator_private_key),
        timestamp: 0,
    };
    let restored = delegated.apply_undelegate(&txu).unwrap();
    assert_eq!(restored, state);
}

#[test]
fn governance_delegation_implies_consensus() {
    let (delegator_public_key, delegator_private_key, delegatee_public_key, delegatee, state) =
        setup_tx_delegate_test();
    let tx = TxDelegate {
        delegator: delegator_public_key,
        delegatee: delegatee_public_key,
        governance: true,
        proof: sign(&delegator_private_key),
        timestamp: 0,
    };
    let new_state = state.apply_delegate(&tx).unwrap();
    assert_eq!(
        new_state.members[0].consensus_delegatee,
        Some(delegatee.name.clone())
    );
    assert_eq!(
        new_state.members[0].governance_delegatee,
        Some(delegatee.name)
    );
}

#[test]
fn consensus_undelegate_keeps_governance_delegation() {
    let (delegator_public_key, delegator_private_key, delegatee_public_key, delegatee, state) =
        setup_tx_delegate_test();
    let txd = TxDelegate {
        delegator: delegator_public_key.clone(),
        delegatee: delegatee_public_key.clone(),
        governance: true,
        proof: sign(&delegator_private_key),
        timestamp: 0,
    };
    let delegated = state.apply_delegate(&txd).unwrap();
    let txu = TxUndelegate {
        delegator: delegator_public_key,
        delegatee: delegatee_public_key,
        governance: false,
        proof: sign(&delegator_private_key),
        timestamp: 0,
    };
    let after = delegated.apply_undelegate(&txu).unwrap();
    assert_eq!(after.members[0].consensus_delegatee, None);
    assert_eq!(
        after.members[0].governance_delegatee,
        Some(delegatee.name)
    );
}

#[test]
fn redelegation_overwrites_previous_delegatee() {
    let (delegator_public_key, delegator_private_key, delegatee_public_key, _, state) =
        setup_tx_delegate_test();
    let tx1 = TxDelegate {
        delegator: delegator_public_key.clone(),
        delegatee: delegatee_public_key,
        governance: false,
        proof: sign(&delegator_private_key),
        timestamp: 0,
    };
    let s1 = state.apply_delegate(&tx1).unwrap();
    assert_eq!(
        s1.members[0].consensus_delegatee,
        Some("delegatee".to_string())
    );
    let tx2 = TxDelegate {
        delegator: delegator_public_key.clone(),
        delegatee: delegator_public_key,
        governance: false,
        proof: sign(&delegator_private_key),
        timestamp: 0,
    };
    let s2 = s1.apply_delegate(&tx2).unwrap();
    assert_eq!(
        s2.members[0].consensus_delegatee,
        Some("delegator".to_string())
    );
}

#[test]
fn empty_membership_aggregates_to_nothing() {
    let keys = (0..1)
        .map(|i| generate_keypair(format!("{i}")))
        .collect::<Vec<_>>();
    let genesis_info = create_genesis_info(&keys, &[]);
    let state = ReservedState {
        genesis_info,
        members: Vec::new(),
        consensus_leader_order: Vec::new(),
        version: "0.1.0".to_string(),
    };
    assert_eq!(state.get_validator_set().unwrap(), Vec::new());
    assert_eq!(state.get_governance_set().unwrap(), Vec::new());
    assert_eq!(state.query_name(&keys[0].0), None);
}
