//! Block-consensus and ledger-reconciliation engine of a relay node in a
//! permissioned chain: transaction checks, UTXO reconciliation, block
//! acceptance with leader rotation, and the roster of validating peers.

pub mod amount;
pub mod crypto;
pub mod structures;
pub mod ledger;
pub mod reconcile;
pub mod validator;
pub mod roster;
pub mod consensus;
pub mod requests;
