//! Proofs for a remote verifier, assembled from the answer of a node.

use vstd::prelude::*;
use crate::beacon_schema::{
    state_field_count, state_fields, sync_committee, NEXT_SYNC_COMMITTEE_FIELD,
};
use crate::beacon_state::{
    lemma_state_depth, proof_error, proof_index_ok, state_depth, state_leaves, SyncCommittee,
};
use crate::decode::field_bytes;
use crate::error::{BeaconStateError, Error};
use crate::fork_name::ForkName;
use crate::hash::Hash256;
use crate::merkle::{audit_path, gindex_level, lemma_audit_path_len, nodes_view, tree_node};
use crate::rpc::{fetch_beacon_state, HttpResponse};
use crate::tree_hash::{hash_tree_root, lemma_field_roots_index};

verus! {

/// The generalized index of the next sync committee in the tree of a state.
pub const NEXT_SYNC_COMMITTEE_INDEX: usize = 55;

/// The proof that a sync committee is part of a state.
pub struct SyncCommitteeProof {
    /// The audit path of the committee, its sibling first.
    pub proof: Vec<Hash256>,
    /// The next sync committee.
    pub next_sync_committee: SyncCommittee,
    /// The generalized index of the committee in the state.
    pub index: usize,
    /// The hash tree root of the committee.
    pub leaf: Hash256,
    /// The slot of the state.
    pub slot: u64,
}

/// Proofs about the states that one beacon node serves.
pub struct StateProofFetcher {
    rpc_endpoint: String,
}

impl StateProofFetcher {
    /// The address of the node, as the contracts speak of it.
    pub closed spec fn endpoint(&self) -> Seq<char> {
        self.rpc_endpoint@
    }

    /// A fetcher for the node at the address given.
    pub fn new(rpc_endpoint: String) -> (fetcher: Self)
        ensures
            fetcher.endpoint() == rpc_endpoint@,
    {
        Self { rpc_endpoint }
    }

    /// The address of the node.
    pub fn rpc_endpoint(&self) -> (address: &str)
        ensures
            address@ == self.endpoint(),
    {
        self.rpc_endpoint.as_str()
    }

    /// The audit path of a generalized index in the state that a response
    /// holds.
    pub fn fetch_state_proof(&self, response: &HttpResponse, index: usize) -> (proof: Result<
        Vec<Hash256>,
        Error,
    >)
        ensures
            match response.state() {
                Err(e) => proof == Err::<Vec<Hash256>, Error>(e),
                Ok(s) => if proof_index_ok(s.fork, index as nat) {
                    proof matches Ok(p) && nodes_view(p@) == audit_path(
                        state_leaves(s.fork, s.bytes),
                        state_depth(s.fork),
                        index as nat,
                    )
                } else {
                    proof == Err::<Vec<Hash256>, Error>(
                        Error::BeaconStateError(proof_error(s.fork, index)),
                    )
                },
            },
    {
        let state = match fetch_beacon_state(response) {
            Ok(s) => s,
            Err(e) => {
                return Err(e);
            },
        };
        match state.compute_merkle_proof(index) {
            Ok(p) => Ok(p),
            Err(e) => Err(Error::BeaconStateError(e)),
        }
    }

    /// The proof of the next sync committee of the state that a response
    /// holds, for the slot that was asked for.
    pub fn fetch_next_sync_committee_proof(&self, response: &HttpResponse, slot: u64) -> (record:
        Result<SyncCommitteeProof, Error>)
        ensures
            match response.state() {
                Err(e) => record matches Err(err) && err == e,
                Ok(s) => if s.fork == ForkName::Base {
                    record matches Err(err) && err == Error::BeaconStateError(
                        BeaconStateError::IncorrectStateVariant,
                    )
                } else {
                    &&& record matches Ok(r)
                    &&& r.index == NEXT_SYNC_COMMITTEE_INDEX
                    &&& r.slot == slot
                    &&& r.proof@.len() == state_depth(s.fork)
                    &&& nodes_view(r.proof@) == audit_path(
                        state_leaves(s.fork, s.bytes),
                        state_depth(s.fork),
                        NEXT_SYNC_COMMITTEE_INDEX as nat,
                    )
                    &&& r.next_sync_committee@ == field_bytes(
                        state_fields(s.fork),
                        s.bytes,
                        NEXT_SYNC_COMMITTEE_FIELD as int,
                    )
                    &&& r.leaf@ == hash_tree_root(sync_committee(), r.next_sync_committee@)
                    &&& r.leaf@ == tree_node(
                        state_leaves(s.fork, s.bytes),
                        state_depth(s.fork),
                        NEXT_SYNC_COMMITTEE_INDEX as nat,
                    )
                },
            },
    {
        let state = match fetch_beacon_state(response) {
            Ok(s) => s,
            Err(e) => {
                return Err(e);
            },
        };
        proof {
            lemma_state_depth(state@.fork);
        }
        let proof = match state.compute_merkle_proof(NEXT_SYNC_COMMITTEE_INDEX) {
            Ok(p) => p,
            Err(e) => {
                return Err(Error::BeaconStateError(e));
            },
        };
        let next_sync_committee = match state.next_sync_committee() {
            Ok(c) => c,
            Err(e) => {
                return Err(Error::BeaconStateError(e));
            },
        };
        let leaf = next_sync_committee.tree_hash_root();
        proof {
            let fork = state@.fork;
            let leaves = state_leaves(fork, state@.bytes);
            lemma_audit_path_len(leaves, state_depth(fork), NEXT_SYNC_COMMITTEE_INDEX as nat);
            assert(nodes_view(proof@).len() == proof@.len());
            reveal_with_fuel(gindex_level, 7);
            lemma_field_roots_index(
                state_fields(fork),
                state@.bytes,
                state_field_count(fork),
                NEXT_SYNC_COMMITTEE_FIELD as int,
            );
            crate::tree_hash::lemma_field_roots_len(
                state_fields(fork),
                state@.bytes,
                state_field_count(fork),
            );
        }
        Ok(
            SyncCommitteeProof {
                proof,
                next_sync_committee,
                index: NEXT_SYNC_COMMITTEE_INDEX,
                leaf,
                slot,
            },
        )
    }
}

} // verus!
