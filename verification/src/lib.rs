//! Semantically agnostic capability planning, exact identities, strict JSON,
//! durable attempt phases and the `gooir` command grammar, with contracts
//! checked by Verus.

pub mod contract;
pub mod text;
pub mod identity;
pub mod json;
pub mod digest;
pub mod journal;
pub mod checkpoint;
pub mod cli;
pub mod capability;
pub mod protocol;
pub mod authority;
pub mod attester;
pub mod registry;
pub mod fact;
pub mod admission;
pub mod keyed;
pub mod ledger;
pub mod assessment;
pub mod manifest;
pub mod failure;
