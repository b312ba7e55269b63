use simperby_core::node::{CommitHash, NodeError, find_agenda_hash, resolve_voters};
use simperby_core::primitives::{Hash256, PrivateKey, PublicKey, Signature};
use simperby_core::reserved::{BlockHeader, GenesisInfo, Member, ReservedState};

fn key(seed: &str) -> PublicKey {
    PublicKey {
        bytes: seed.as_bytes().to_vec(),
    }
}

fn commit(seed: &str) -> CommitHash {
    CommitHash {
        bytes: seed.as_bytes().to_vec(),
    }
}

fn hash(seed: &str) -> Hash256 {
    Hash256 {
        bytes: seed.as_bytes().to_vec(),
    }
}

fn member(name: &str, seed: &str) -> Member {
    Member {
        public_key: key(seed),
        name: name.to_string(),
        consensus_voting_power: 1,
        governance_voting_power: 1,
        consensus_delegatee: None,
        governance_delegatee: None,
    }
}

fn small_state(members: Vec<Member>) -> ReservedState {
    let header = BlockHeader {
        author: PublicKey::zero(),
        prev_block_finalization_proof: Vec::new(),
        previous_hash: Hash256::zero(),
        height: 0,
        timestamp: 0,
        commit_merkle_root: Hash256::zero(),
        repository_merkle_root: Hash256::zero(),
        validator_set: members
            .iter()
            .map(|m| (m.public_key.clone(), m.consensus_voting_power))
            .collect(),
        version: "0.1.0".to_string(),
    };
    let genesis_info = GenesisInfo {
        header,
        genesis_proof: vec![Signature {
            bytes: b"genesis".to_vec(),
        }],
        chain_name: "test-chain".to_string(),
    };
    let order = members.iter().map(|m| m.name.clone()).collect();
    ReservedState {
        genesis_info,
        members,
        consensus_leader_order: order,
        version: "0.1.0".to_string(),
    }
}

#[test]
fn vote_finds_the_agenda_hash() {
    let agendas = vec![
        (commit("c1"), hash("a1")),
        (commit("c2"), hash("a2")),
        (commit("c3"), hash("a3")),
    ];
    assert_eq!(find_agenda_hash(&agendas, &commit("c2")), Ok(hash("a2")));
    assert_eq!(find_agenda_hash(&agendas, &commit("c1")), Ok(hash("a1")));
}

#[test]
fn vote_rejects_a_commit_that_is_no_agenda() {
    let agendas = vec![(commit("c1"), hash("a1"))];
    assert_eq!(
        find_agenda_hash(&agendas, &commit("c9")),
        Err(NodeError::UnknownAgenda)
    );
    assert_eq!(
        find_agenda_hash(&Vec::new(), &commit("c1")),
        Err(NodeError::UnknownAgenda)
    );
}

#[test]
fn show_resolves_known_voters_in_order() {
    let state = small_state(vec![member("alice", "ka"), member("bob", "kb")]);
    let voters = vec![key("kb"), key("unknown"), key("ka")];
    let resolved = resolve_voters(&state, &voters);
    assert_eq!(
        resolved,
        vec![("bob".to_string(), 0), ("alice".to_string(), 0)]
    );
}

#[test]
fn show_resolves_no_voters_from_an_empty_ballot() {
    let state = small_state(vec![member("alice", "ka")]);
    let resolved = resolve_voters(&state, &Vec::new());
    assert_eq!(resolved, Vec::new());
}
