//! Merkle inclusion proofs for fields of a beacon chain state.
//!
//! A state snapshot arrives as SSZ bytes together with the name of the fork it
//! was produced under. The library checks the bytes against that fork's schema,
//! merkleizes the state into its hash tree, and extracts the audit path of a
//! generalized index; the path of the next sync committee is the case it is
//! built for. The transport that obtains the bytes is left to the caller.

pub mod error;
pub mod fork_name;
pub mod hash;
pub mod merkle;
pub mod schema;
pub mod decode;
pub mod tree_hash;
pub mod beacon_schema;
pub mod beacon_state;
pub mod beacon_block;
pub mod rpc;
pub mod state_proof_fetcher;
