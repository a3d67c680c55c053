//! A decoded state, its hash tree, and the audit paths of its nodes.

use vstd::prelude::*;
use vstd::slice::{slice_subrange, slice_to_vec};
use crate::beacon_schema::{
    beacon_state, beacon_state_schema, field_count, lemma_part_types, lemma_payload_header,
    lemma_payload_header_field, lemma_payload_header_part_pos, lemma_state_field,
    lemma_state_part_pos, payload_header, payload_header_fixed_part, state_field_count,
    state_fields, state_part_pos, sync_committee, sync_committee_schema,
    NEXT_SYNC_COMMITTEE_FIELD,
};
use crate::decode::{
    field_bytes, field_range, fields_laid_out, lemma_field_end_bounded,
    lemma_next_offset_skips_fixed, lemma_valid_fixed_len, read_offset, u32_le, valid,
};
use crate::error::{BeaconStateError, Error};
use crate::fork_name::ForkName;
use crate::hash::Hash256;
use crate::merkle::{
    audit_path, fold_path, gindex_level_of, in_tree, lemma_audit_path_reaches_root,
    lemma_two_pow_monotonic, merkle_branch, merkle_root, merkleize, nodes_view, tree_depth,
    tree_node, two_pow, ZeroHashes,
};
use crate::schema::{fixed_len, SszType};
use crate::tree_hash::{
    depth_for, field_roots, hash_tree_root, lemma_field_roots_index, lemma_field_roots_len,
};

verus! {

/// The depth of the tree over the fields of a state.
pub open spec fn state_depth(fork: ForkName) -> nat {
    tree_depth(state_field_count(fork))
}

/// The leaves of the tree of a state: the hash tree roots of its fields.
pub open spec fn state_leaves(fork: ForkName, bytes: Seq<u8>) -> Seq<Seq<u8>> {
    field_roots(state_fields(fork), bytes, state_field_count(fork))
}

/// The hash tree root of a state.
pub open spec fn state_root(fork: ForkName, bytes: Seq<u8>) -> Seq<u8> {
    hash_tree_root(beacon_state(fork), bytes)
}

/// Whether a generalized index names a node of the tree of a state that is
/// either an inner node or the leaf of a field that the fork has.
pub open spec fn proof_index_ok(fork: ForkName, g: nat) -> bool {
    &&& in_tree(state_depth(fork), g)
    &&& g >= two_pow(state_depth(fork)) ==> g - two_pow(state_depth(fork)) < state_field_count(
        fork,
    )
}

/// What a request for the audit path of a generalized index fails with, where
/// it fails: the index lies outside the tree, or it is the leaf of a field that
/// the fork does not have.
pub open spec fn proof_error(fork: ForkName, g: usize) -> BeaconStateError {
    if in_tree(state_depth(fork), g as nat) {
        BeaconStateError::IncorrectStateVariant
    } else {
        BeaconStateError::IndexNotSupported(g)
    }
}

/// The eight-byte little-endian number at `pos`.
pub open spec fn u64_le(b: Seq<u8>, pos: int) -> nat {
    u32_le(b, pos) + 0x1_0000_0000 * u32_le(b, pos + 4)
}

/// The tree of a state of any fork has 32 leaves.
pub proof fn lemma_state_depth(fork: ForkName)
    ensures
        state_depth(fork) == 5,
        two_pow(5) == 32,
{
    reveal_with_fuel(tree_depth, 6);
    reveal_with_fuel(two_pow, 6);
}

/// The root of a state is the root of the tree over its leaves.
pub proof fn lemma_state_root_is_merkle_root(fork: ForkName, bytes: Seq<u8>)
    ensures
        state_root(fork, bytes) == merkle_root(state_leaves(fork, bytes), state_depth(fork)),
{
}

/// The bytes of a state hold at least the fixed part of its fork.
pub proof fn lemma_state_len(fork: ForkName, bytes: Seq<u8>)
    requires
        valid(beacon_state(fork), bytes),
    ensures
        bytes.len() >= state_part_pos(state_field_count(fork) as int),
        bytes.len() >= 2687377,
{
    lemma_state_part_pos(fork, state_field_count(fork));
}

/// In the bytes of a state, the first offset is that of the historical roots,
/// and it gives the length of the fixed part of the fork.
pub proof fn lemma_state_first_offset(fork: ForkName, bytes: Seq<u8>)
    requires
        valid(beacon_state(fork), bytes),
    ensures
        u32_le(bytes, 524464) == state_part_pos(state_field_count(fork) as int),
{
    let fields = state_fields(fork);
    assert forall|i: int| 0 <= i < 7 implies fixed_len(#[trigger] fields[i]) is Some by {
        lemma_state_field(fork, i);
    }
    lemma_state_field(fork, 7);
    lemma_next_offset_skips_fixed(fields, bytes, 0, 7);
    lemma_state_part_pos(fork, 7);
    lemma_state_part_pos(fork, state_field_count(fork));
}

/// In the bytes of a state from Capella on, the execution payload header lies
/// between the offsets at 2736629 and at 2736649, and is a header of the fork.
pub proof fn lemma_state_payload_header(fork: ForkName, bytes: Seq<u8>)
    requires
        fork == ForkName::Capella || fork == ForkName::Deneb,
        valid(beacon_state(fork), bytes),
    ensures
        valid(
            payload_header(fork),
            bytes.subrange(u32_le(bytes, 2736629) as int, u32_le(bytes, 2736649) as int),
        ),
{
    let fields = state_fields(fork);
    lemma_state_field(fork, 24);
    lemma_state_field(fork, 25);
    lemma_state_field(fork, 26);
    lemma_state_field(fork, 27);
    lemma_state_part_pos(fork, 24);
    lemma_state_part_pos(fork, 27);
    assert forall|i: int| 25 <= i < 27 implies fixed_len(#[trigger] fields[i]) is Some by {
        lemma_state_field(fork, i);
    }
    lemma_next_offset_skips_fixed(fields, bytes, 25, 27);
    assert(valid(fields[24], field_bytes(fields, bytes, 24)));
}

/// In the bytes of an execution payload header, the first offset is that of
/// the extra data, and it gives the length of the fixed part of the fork.
pub proof fn lemma_payload_header_first_offset(fork: ForkName, bytes: Seq<u8>)
    requires
        valid(payload_header(fork), bytes),
    ensures
        u32_le(bytes, 436) == payload_header_fixed_part(fork),
{
    let fields = payload_header(fork)->Container_0;
    assert forall|i: int| 0 <= i < 10 implies fixed_len(#[trigger] fields[i]) is Some by {
        lemma_payload_header_field(i);
    }
    lemma_payload_header_field(10);
    lemma_next_offset_skips_fixed(fields, bytes, 0, 10);
    lemma_payload_header_part_pos(fork, 10);
    lemma_payload_header(fork);
}

/// No bytes are a state under two forks: what decodes under one fork fails to
/// decode under every other.
pub proof fn lemma_forks_do_not_cross_decode(a: ForkName, b: ForkName, bytes: Seq<u8>)
    requires
        a != b,
        valid(beacon_state(a), bytes),
    ensures
        !valid(beacon_state(b), bytes),
{
    if valid(beacon_state(b), bytes) {
        lemma_state_first_offset(a, bytes);
        lemma_state_first_offset(b, bytes);
        // Only Capella and Deneb share the length of the fixed part: they
        // differ in that of the execution payload header.
        lemma_state_payload_header(a, bytes);
        lemma_state_payload_header(b, bytes);
        let header = bytes.subrange(u32_le(bytes, 2736629) as int, u32_le(bytes, 2736649) as int);
        lemma_payload_header_first_offset(a, header);
        lemma_payload_header_first_offset(b, header);
    }
}

/// Every node of the tree of a state, folded with its own audit path, gives the
/// root of the state.
pub proof fn lemma_state_proof_reaches_root(fork: ForkName, bytes: Seq<u8>, g: nat)
    requires
        proof_index_ok(fork, g),
    ensures
        fold_path(
            tree_node(state_leaves(fork, bytes), state_depth(fork), g),
            audit_path(state_leaves(fork, bytes), state_depth(fork), g),
            g,
        ) == state_root(fork, bytes),
{
    lemma_audit_path_reaches_root(state_leaves(fork, bytes), state_depth(fork), g);
}

/// The leaf of field `k` in the tree of a state is the hash tree root of that
/// field, and its generalized index is `32 + k`.
pub proof fn lemma_state_leaf(fork: ForkName, bytes: Seq<u8>, k: int)
    requires
        0 <= k < state_field_count(fork),
    ensures
        proof_index_ok(fork, (32 + k) as nat),
        tree_node(state_leaves(fork, bytes), state_depth(fork), (32 + k) as nat) == hash_tree_root(
            state_fields(fork)[k],
            field_bytes(state_fields(fork), bytes, k),
        ),
{
    lemma_state_depth(fork);
    lemma_field_roots_len(state_fields(fork), bytes, state_field_count(fork));
    lemma_field_roots_index(state_fields(fork), bytes, state_field_count(fork), k);
}

/// The root, the leaves and every audit path of a state are determined by its
/// fork and its bytes: two states that agree in both agree in all of them.
pub proof fn lemma_proof_is_determined(a: BeaconStateView, b: BeaconStateView, g: nat)
    requires
        a.fork == b.fork,
        a.bytes == b.bytes,
    ensures
        state_root(a.fork, a.bytes) == state_root(b.fork, b.bytes),
        state_leaves(a.fork, a.bytes) == state_leaves(b.fork, b.bytes),
        audit_path(state_leaves(a.fork, a.bytes), state_depth(a.fork), g) == audit_path(
            state_leaves(b.fork, b.bytes),
            state_depth(b.fork),
            g,
        ),
        tree_node(state_leaves(a.fork, a.bytes), state_depth(a.fork), g) == tree_node(
            state_leaves(b.fork, b.bytes),
            state_depth(b.fork),
            g,
        ),
{
}

/// No audit path is owed for the index 0, for an index beyond the last leaf of
/// the tree, or for the leaf of a field that the fork does not have.
pub proof fn lemma_index_bounds(fork: ForkName, g: nat)
    ensures
        g == 0 ==> !proof_index_ok(fork, g),
        g > 63 ==> !proof_index_ok(fork, g),
        g >= 32 + state_field_count(fork) ==> !proof_index_ok(fork, g),
        1 <= g < 32 + state_field_count(fork) ==> proof_index_ok(fork, g),
{
    lemma_state_depth(fork);
}

/// A sync committee: 512 public keys of 48 bytes and their aggregate.
pub struct SyncCommittee {
    bytes: Vec<u8>,
}

impl View for SyncCommittee {
    type V = Seq<u8>;

    closed spec fn view(&self) -> Seq<u8> {
        self.bytes@
    }
}

/// The serialization of a sync committee is 24624 bytes long.
pub proof fn lemma_sync_committee_len(bytes: Seq<u8>)
    requires
        valid(sync_committee(), bytes),
    ensures
        bytes.len() == 24624,
{
    lemma_part_types();
    lemma_valid_fixed_len(sync_committee(), bytes);
}

impl SyncCommittee {
    #[verifier::type_invariant]
    spec fn decoded(&self) -> bool {
        valid(sync_committee(), self.bytes@)
    }

    /// Reads a sync committee from its serialization.
    pub fn from_ssz_bytes(bytes: &[u8]) -> (committee: Result<SyncCommittee, Error>)
        ensures
            match committee {
                Ok(c) => valid(sync_committee(), bytes@) && c@ == bytes@,
                Err(e) => !valid(sync_committee(), bytes@) && e == Error::SszError,
            },
    {
        let schema = sync_committee_schema();
        if schema.is_valid(bytes) {
            Ok(SyncCommittee { bytes: slice_to_vec(bytes) })
        } else {
            Err(Error::SszError)
        }
    }

    /// The serialization of the committee.
    pub fn as_ssz_bytes(&self) -> (bytes: &[u8])
        ensures
            bytes@ == self@,
            valid(sync_committee(), self@),
    {
        proof {
            use_type_invariant(self);
        }
        self.bytes.as_slice()
    }

    /// The public key of member `i`.
    pub fn pubkey(&self, i: usize) -> (key: Option<[u8; 48]>)
        ensures
            match key {
                Some(k) => i < 512 && k@ == self@.subrange(48 * i, 48 * i + 48),
                None => i >= 512,
            },
    {
        proof {
            use_type_invariant(self);
            lemma_sync_committee_len(self.bytes@);
        }
        if i >= 512 {
            return None;
        }
        Some(copy_key(self.bytes.as_slice(), 48 * i))
    }

    /// The aggregate of the public keys.
    pub fn aggregate_pubkey(&self) -> (key: [u8; 48])
        ensures
            key@ == self@.subrange(24576, 24624),
    {
        proof {
            use_type_invariant(self);
            lemma_sync_committee_len(self.bytes@);
        }
        copy_key(self.bytes.as_slice(), 24576)
    }

    /// The hash tree root of the committee.
    pub fn tree_hash_root(&self) -> (root: Hash256)
        ensures
            root@ == hash_tree_root(sync_committee(), self@),
    {
        proof {
            use_type_invariant(self);
        }
        let schema = sync_committee_schema();
        let zeros = ZeroHashes::new();
        schema.hash_tree_root(self.bytes.as_slice(), &zeros)
    }
}

/// The 48 bytes from `start` on.
fn copy_key(b: &[u8], start: usize) -> (key: [u8; 48])
    requires
        start + 48 <= b@.len(),
    ensures
        key@ == b@.subrange(start as int, start + 48),
{
    let total = b.len();
    let mut key: [u8; 48] = [0u8; 48];
    let mut j: usize = 0;
    while j < 48
        invariant
            j <= 48,
            total == b@.len(),
            start + 48 <= b@.len(),
            forall|m: int| 0 <= m < j ==> key@[m] == b@[start + m],
        decreases 48 - j,
    {
        key[j] = b[start + j];
        j += 1;
    }
    assert(key@ =~= b@.subrange(start as int, start + 48));
    key
}

/// A decoded state, as the contracts speak of it: its fork and its bytes.
pub struct BeaconStateView {
    pub fork: ForkName,
    pub bytes: Seq<u8>,
}

/// The state of the beacon chain at one slot, decoded under one fork.
pub struct BeaconState {
    fork: ForkName,
    bytes: Vec<u8>,
}

impl View for BeaconState {
    type V = BeaconStateView;

    closed spec fn view(&self) -> BeaconStateView {
        BeaconStateView { fork: self.fork, bytes: self.bytes@ }
    }
}

impl BeaconState {
    #[verifier::type_invariant]
    spec fn decoded(&self) -> bool {
        valid(beacon_state(self.fork), self.bytes@)
    }

    /// Decodes a state from its serialization under the fork given. The bytes
    /// have to fit the fields of that fork exactly.
    pub fn from_fork_ssz_bytes(bytes: &[u8], fork: ForkName) -> (state: Result<BeaconState, Error>)
        ensures
            match state {
                Ok(s) => valid(beacon_state(fork), bytes@) && s@ == (BeaconStateView {
                    fork,
                    bytes: bytes@,
                }),
                Err(e) => !valid(beacon_state(fork), bytes@) && e == Error::SszError,
            },
    {
        let schema = beacon_state_schema(fork);
        if schema.is_valid(bytes) {
            Ok(BeaconState { fork, bytes: slice_to_vec(bytes) })
        } else {
            Err(Error::SszError)
        }
    }

    /// The fork that the state was decoded under.
    pub fn fork_name(&self) -> (fork: ForkName)
        ensures
            fork == self@.fork,
    {
        self.fork
    }

    /// The serialization of the state.
    pub fn as_ssz_bytes(&self) -> (bytes: &[u8])
        ensures
            bytes@ == self@.bytes,
            valid(beacon_state(self@.fork), self@.bytes),
    {
        proof {
            use_type_invariant(self);
        }
        self.bytes.as_slice()
    }

    /// The slot of the state.
    pub fn slot(&self) -> (slot: u64)
        ensures
            slot == u64_le(self@.bytes, 40),
    {
        proof {
            use_type_invariant(self);
            lemma_state_len(self.fork, self.bytes@);
        }
        let low = read_offset(self.bytes.as_slice(), 40);
        let high = read_offset(self.bytes.as_slice(), 44);
        low + 0x1_0000_0000 * high
    }

    /// The bytes of field `k`, where the fork has such a field.
    pub fn field(&self, k: usize) -> (bytes: Option<&[u8]>)
        ensures
            match bytes {
                Some(b) => k < state_field_count(self@.fork) && b@ == field_bytes(
                    state_fields(self@.fork),
                    self@.bytes,
                    k as int,
                ) && valid(state_fields(self@.fork)[k as int], b@),
                None => k >= state_field_count(self@.fork),
            },
    {
        proof {
            use_type_invariant(self);
        }
        if k >= field_count(self.fork) {
            return None;
        }
        let schema = beacon_state_schema(self.fork);
        let ghost types = state_fields(self.fork);
        match &schema {
            SszType::Container(fields) => {
                let total = self.bytes.len();
                assert(SszType::Container(*fields)@->Container_0 == types);
                assert(fields_laid_out(types, self.bytes@));
                let (parts, _) = SszType::field_parts(fields);
                let (start, end) = field_range(&parts, self.bytes.as_slice(), k, Ghost(types));
                proof {
                    lemma_field_end_bounded(types, self.bytes@, k as int);
                }
                let part = slice_subrange(self.bytes.as_slice(), start as usize, end as usize);
                assert(part@ == field_bytes(types, self.bytes@, k as int));
                Some(part)
            },
            _ => {
                assert(false);
                None
            },
        }
    }

    /// The hash tree roots of the fields: the leaves of the tree of the state.
    pub fn field_roots(&self) -> (leaves: Vec<Hash256>)
        ensures
            nodes_view(leaves@) == state_leaves(self@.fork, self@.bytes),
            leaves@.len() == state_field_count(self@.fork),
    {
        proof {
            use_type_invariant(self);
        }
        let schema = beacon_state_schema(self.fork);
        let zeros = ZeroHashes::new();
        match &schema {
            SszType::Container(fields) => SszType::field_root_nodes(
                fields,
                self.bytes.as_slice(),
                &zeros,
            ),
            _ => {
                assert(false);
                Vec::new()
            },
        }
    }

    /// The hash tree root of the state.
    pub fn tree_hash_root(&self) -> (root: Hash256)
        ensures
            root@ == state_root(self@.fork, self@.bytes),
    {
        let leaves = self.field_roots();
        let zeros = ZeroHashes::new();
        let depth = depth_for(field_count(self.fork) as u64);
        assert(leaves@.len() == nodes_view(leaves@).len());
        merkleize(leaves, depth, &zeros)
    }

    /// The audit path of the node with the generalized index given in the tree
    /// over the fields of the state: the sibling of the node first, a child of
    /// the root last.
    pub fn compute_merkle_proof(&self, generalized_index: usize) -> (path: Result<
        Vec<Hash256>,
        BeaconStateError,
    >)
        ensures
            match path {
                Ok(p) => proof_index_ok(self@.fork, generalized_index as nat) && nodes_view(p@)
                    == audit_path(
                    state_leaves(self@.fork, self@.bytes),
                    state_depth(self@.fork),
                    generalized_index as nat,
                ),
                Err(e) => !proof_index_ok(self@.fork, generalized_index as nat) && e
                    == proof_error(self@.fork, generalized_index),
            },
    {
        match self.root_and_proof(generalized_index) {
            Ok((_, p, _)) => Ok(p),
            Err(e) => Err(e),
        }
    }

    /// The root of the state, the audit path of the node with the generalized
    /// index given, and that node: the path folds the node to the root.
    pub fn root_and_proof(&self, generalized_index: usize) -> (r: Result<
        (Hash256, Vec<Hash256>, Hash256),
        BeaconStateError,
    >)
        ensures
            match r {
                Ok((root, path, node)) => {
                    &&& proof_index_ok(self@.fork, generalized_index as nat)
                    &&& root@ == state_root(self@.fork, self@.bytes)
                    &&& nodes_view(path@) == audit_path(
                        state_leaves(self@.fork, self@.bytes),
                        state_depth(self@.fork),
                        generalized_index as nat,
                    )
                    &&& node@ == tree_node(
                        state_leaves(self@.fork, self@.bytes),
                        state_depth(self@.fork),
                        generalized_index as nat,
                    )
                    &&& fold_path(node@, nodes_view(path@), generalized_index as nat) == root@
                },
                Err(e) => !proof_index_ok(self@.fork, generalized_index as nat) && e
                    == proof_error(self@.fork, generalized_index),
            },
    {
        let count = field_count(self.fork);
        let depth = depth_for(count as u64);
        if generalized_index == 0 {
            return Err(BeaconStateError::IndexNotSupported(generalized_index));
        }
        let (level, first) = gindex_level_of(generalized_index);
        if level > depth {
            proof {
                lemma_two_pow_monotonic((depth + 1) as nat, level as nat);
            }
            return Err(BeaconStateError::IndexNotSupported(generalized_index));
        }
        proof {
            lemma_two_pow_monotonic(level as nat, depth as nat);
            if level < depth {
                lemma_two_pow_monotonic((level + 1) as nat, depth as nat);
            }
        }
        if level == depth && generalized_index - first >= count {
            return Err(BeaconStateError::IncorrectStateVariant);
        }
        let leaves = self.field_roots();
        let zeros = ZeroHashes::new();
        assert(leaves@.len() == nodes_view(leaves@).len());
        let (node, path) = merkle_branch(&leaves, depth, generalized_index, &zeros);
        let root = merkleize(leaves, depth, &zeros);
        proof {
            lemma_state_proof_reaches_root(self@.fork, self@.bytes, generalized_index as nat);
        }
        Ok((root, path, node))
    }

    /// The next sync committee, where the fork of the state has one.
    pub fn next_sync_committee(&self) -> (committee: Result<SyncCommittee, BeaconStateError>)
        ensures
            match committee {
                Ok(c) => self@.fork != ForkName::Base && c@ == field_bytes(
                    state_fields(self@.fork),
                    self@.bytes,
                    NEXT_SYNC_COMMITTEE_FIELD as int,
                ),
                Err(e) => self@.fork == ForkName::Base && e
                    == BeaconStateError::IncorrectStateVariant,
            },
    {
        match self.field(NEXT_SYNC_COMMITTEE_FIELD) {
            Some(part) => Ok(SyncCommittee { bytes: slice_to_vec(part) }),
            None => Err(BeaconStateError::IncorrectStateVariant),
        }
    }
}

} // verus!
