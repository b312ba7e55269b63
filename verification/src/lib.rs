//! Authority core of a blockchain node: the reserved-state delegation
//! engine that derives consensus and governance voting power from a
//! membership ledger, together with the pure decision logic that the
//! node orchestrator runs each round.

pub mod laws;
pub mod node;
pub mod primitives;
pub mod reserved;
