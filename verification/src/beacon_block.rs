//! The block of the beacon chain as a type of the serialization, fork by fork,
//! and a decoded block.

use vstd::prelude::*;
use vstd::slice::slice_to_vec;
use crate::beacon_schema::{
    attestation_data, attestation_data_schema, block_header, block_header_schema, byte_list,
    byte_list_schema, byte_vector, byte_vector_schema, container_schema, eth1_data,
    eth1_data_schema, lemma_byte_vector, lemma_part_types, lemma_payload_header_field, list_of,
    list_schema, payload_header_field, payload_header_len, payload_header_part_len,
    payload_header_part_pos, uint64, uint64_schema, vector_of, vector_schema,
    MAX_VALIDATORS_PER_COMMITTEE,
};
use crate::beacon_state::u64_le;
use crate::decode::{read_offset, valid};
use crate::error::Error;
use crate::fork_name::ForkName;
use crate::hash::Hash256;
use crate::merkle::ZeroHashes;
use crate::schema::{
    fixed_len, lemma_container, lemma_fixed_container, lemma_variable_container, part_len,
    part_pos, sum_to, well_formed, SszType, TypeSpec,
};
use crate::tree_hash::hash_tree_root;

verus! {

/// The most proposer slashings in one block.
pub const MAX_PROPOSER_SLASHINGS: u64 = 16;

/// The most attester slashings in one block.
pub const MAX_ATTESTER_SLASHINGS: u64 = 2;

/// The most attestations in one block.
pub const MAX_ATTESTATIONS: u64 = 128;

/// The most deposits in one block.
pub const MAX_DEPOSITS: u64 = 16;

/// The most voluntary exits in one block.
pub const MAX_VOLUNTARY_EXITS: u64 = 16;

/// The most changes of withdrawal credentials in one block.
pub const MAX_BLS_TO_EXECUTION_CHANGES: u64 = 16;

/// The most blob commitments in one block.
pub const MAX_BLOB_COMMITMENTS_PER_BLOCK: u64 = 4096;

/// The most withdrawals in one execution payload.
pub const MAX_WITHDRAWALS_PER_PAYLOAD: u64 = 16;

/// The most bytes of one transaction.
pub const MAX_BYTES_PER_TRANSACTION: u64 = 1073741824;

/// The most transactions in one execution payload.
pub const MAX_TRANSACTIONS_PER_PAYLOAD: u64 = 1048576;

/// The number of nodes in the proof of a deposit.
pub const DEPOSIT_PROOF_LENGTH: u64 = 33;

/// The number of bits of a sync aggregate: one for each member.
pub const SYNC_COMMITTEE_BITS: u64 = 512;

/// A signature: 96 bytes.
pub open spec fn signature() -> TypeSpec {
    byte_vector(96)
}

/// `SignedBeaconBlockHeader`: header, signature.
pub open spec fn signed_block_header() -> TypeSpec {
    TypeSpec::Container(seq![block_header(), signature()])
}

/// `ProposerSlashing`: two signed headers.
pub open spec fn proposer_slashing() -> TypeSpec {
    TypeSpec::Container(seq![signed_block_header(), signed_block_header()])
}

/// `IndexedAttestation`: attesting indices, data, signature.
pub open spec fn indexed_attestation() -> TypeSpec {
    TypeSpec::Container(
        seq![
            list_of(uint64(), MAX_VALIDATORS_PER_COMMITTEE as nat),
            attestation_data(),
            signature(),
        ],
    )
}

/// `AttesterSlashing`: two indexed attestations.
pub open spec fn attester_slashing() -> TypeSpec {
    TypeSpec::Container(seq![indexed_attestation(), indexed_attestation()])
}

/// `Attestation`: aggregation bits, data, signature.
pub open spec fn attestation() -> TypeSpec {
    TypeSpec::Container(
        seq![
            TypeSpec::Bitlist(MAX_VALIDATORS_PER_COMMITTEE as nat),
            attestation_data(),
            signature(),
        ],
    )
}

/// `DepositData`: public key, withdrawal credentials, amount, signature.
pub open spec fn deposit_data() -> TypeSpec {
    TypeSpec::Container(seq![byte_vector(48), byte_vector(32), uint64(), signature()])
}

/// `Deposit`: proof, data.
pub open spec fn deposit() -> TypeSpec {
    TypeSpec::Container(
        seq![vector_of(byte_vector(32), DEPOSIT_PROOF_LENGTH as nat), deposit_data()],
    )
}

/// `VoluntaryExit`: epoch, validator index.
pub open spec fn voluntary_exit() -> TypeSpec {
    TypeSpec::Container(seq![uint64(), uint64()])
}

/// `SignedVoluntaryExit`: exit, signature.
pub open spec fn signed_voluntary_exit() -> TypeSpec {
    TypeSpec::Container(seq![voluntary_exit(), signature()])
}

/// `SyncAggregate`: the bits of the committee, their signature.
pub open spec fn sync_aggregate() -> TypeSpec {
    TypeSpec::Container(seq![TypeSpec::Bitvector(SYNC_COMMITTEE_BITS as nat), signature()])
}

/// `Withdrawal`: index, validator index, address, amount.
pub open spec fn withdrawal() -> TypeSpec {
    TypeSpec::Container(seq![uint64(), uint64(), byte_vector(20), uint64()])
}

/// `BLSToExecutionChange`: validator index, public key, address.
pub open spec fn bls_change() -> TypeSpec {
    TypeSpec::Container(seq![uint64(), byte_vector(48), byte_vector(20)])
}

/// `SignedBLSToExecutionChange`: change, signature.
pub open spec fn signed_bls_change() -> TypeSpec {
    TypeSpec::Container(seq![bls_change(), signature()])
}

/// Field `k` of an execution payload: those of its header, with the
/// transactions in place of their root and the withdrawals in place of theirs.
pub open spec fn execution_payload_field(k: int) -> TypeSpec {
    if k == 13 {
        list_of(
            byte_list(MAX_BYTES_PER_TRANSACTION as nat),
            MAX_TRANSACTIONS_PER_PAYLOAD as nat,
        )
    } else if k == 14 {
        list_of(withdrawal(), MAX_WITHDRAWALS_PER_PAYLOAD as nat)
    } else {
        payload_header_field(k)
    }
}

/// `ExecutionPayload` under a fork.
pub open spec fn execution_payload(fork: ForkName) -> TypeSpec {
    TypeSpec::Container(Seq::new(payload_header_len(fork), |k: int| execution_payload_field(k)))
}

/// The number of fields of the body of a block under a fork.
pub open spec fn body_field_count(fork: ForkName) -> nat {
    match fork {
        ForkName::Base => 8,
        ForkName::Altair => 9,
        ForkName::Bellatrix => 10,
        ForkName::Capella => 11,
        ForkName::Deneb => 12,
    }
}

/// Field `k` of the body of a block under a fork. In order: randao reveal,
/// eth1 data, graffiti, proposer slashings, attester slashings, attestations,
/// deposits, voluntary exits; from Altair on the sync aggregate; from Bellatrix
/// on the execution payload; from Capella on the changes of withdrawal
/// credentials; from Deneb on the blob commitments.
pub open spec fn body_field(fork: ForkName, k: int) -> TypeSpec {
    if k == 0 {
        signature()
    } else if k == 1 {
        eth1_data()
    } else if k == 2 {
        byte_vector(32)
    } else if k == 3 {
        list_of(proposer_slashing(), MAX_PROPOSER_SLASHINGS as nat)
    } else if k == 4 {
        list_of(attester_slashing(), MAX_ATTESTER_SLASHINGS as nat)
    } else if k == 5 {
        list_of(attestation(), MAX_ATTESTATIONS as nat)
    } else if k == 6 {
        list_of(deposit(), MAX_DEPOSITS as nat)
    } else if k == 7 {
        list_of(signed_voluntary_exit(), MAX_VOLUNTARY_EXITS as nat)
    } else if k == 8 {
        sync_aggregate()
    } else if k == 9 {
        execution_payload(fork)
    } else if k == 10 {
        list_of(signed_bls_change(), MAX_BLS_TO_EXECUTION_CHANGES as nat)
    } else {
        list_of(byte_vector(48), MAX_BLOB_COMMITMENTS_PER_BLOCK as nat)
    }
}

/// `BeaconBlockBody` under a fork.
pub open spec fn block_body(fork: ForkName) -> TypeSpec {
    TypeSpec::Container(Seq::new(body_field_count(fork), |k: int| body_field(fork, k)))
}

/// `BeaconBlock` under a fork: slot, proposer index, parent root, state root,
/// body.
pub open spec fn beacon_block(fork: ForkName) -> TypeSpec {
    TypeSpec::Container(
        seq![uint64(), uint64(), byte_vector(32), byte_vector(32), block_body(fork)],
    )
}

/// The containers of fixed length that a block is made of are well formed and
/// of the lengths given.
pub proof fn lemma_block_fixed_types()
    ensures
        well_formed(signed_block_header()),
        fixed_len(signed_block_header()) == Some(208nat),
        well_formed(proposer_slashing()),
        fixed_len(proposer_slashing()) == Some(416nat),
        well_formed(deposit_data()),
        fixed_len(deposit_data()) == Some(184nat),
        well_formed(deposit()),
        fixed_len(deposit()) == Some(1240nat),
        well_formed(voluntary_exit()),
        fixed_len(voluntary_exit()) == Some(16nat),
        well_formed(signed_voluntary_exit()),
        fixed_len(signed_voluntary_exit()) == Some(112nat),
        well_formed(sync_aggregate()),
        fixed_len(sync_aggregate()) == Some(160nat),
        well_formed(withdrawal()),
        fixed_len(withdrawal()) == Some(44nat),
        well_formed(bls_change()),
        fixed_len(bls_change()) == Some(76nat),
        well_formed(signed_bls_change()),
        fixed_len(signed_bls_change()) == Some(172nat),
{
    lemma_part_types();
    lemma_byte_vector(20);
    lemma_byte_vector(32);
    lemma_byte_vector(48);
    lemma_byte_vector(96);
    reveal_with_fuel(sum_to, 5);
    lemma_fixed_container(seq![block_header(), signature()], seq![112nat, 96]);
    lemma_fixed_container(seq![signed_block_header(), signed_block_header()], seq![208nat, 208]);
    lemma_fixed_container(
        seq![byte_vector(48), byte_vector(32), uint64(), signature()],
        seq![48nat, 32, 8, 96],
    );
    assert(well_formed(vector_of(byte_vector(32), 33)) && fixed_len(vector_of(byte_vector(32), 33))
        == Some(1056nat)) by {
        reveal_with_fuel(fixed_len, 2);
        reveal_with_fuel(part_len, 2);
    }
    lemma_fixed_container(
        seq![vector_of(byte_vector(32), DEPOSIT_PROOF_LENGTH as nat), deposit_data()],
        seq![1056nat, 184],
    );
    lemma_fixed_container(seq![uint64(), uint64()], seq![8nat, 8]);
    lemma_fixed_container(seq![voluntary_exit(), signature()], seq![16nat, 96]);
    lemma_fixed_container(
        seq![TypeSpec::Bitvector(SYNC_COMMITTEE_BITS as nat), signature()],
        seq![64nat, 96],
    );
    lemma_fixed_container(
        seq![uint64(), uint64(), byte_vector(20), uint64()],
        seq![8nat, 8, 20, 8],
    );
    lemma_fixed_container(seq![uint64(), byte_vector(48), byte_vector(20)], seq![8nat, 48, 20]);
    lemma_fixed_container(seq![bls_change(), signature()], seq![76nat, 96]);
}

/// The containers with a list in them that a block is made of are well formed
/// and of no fixed length.
pub proof fn lemma_block_variable_types()
    ensures
        well_formed(indexed_attestation()),
        fixed_len(indexed_attestation()) is None,
        well_formed(attester_slashing()),
        fixed_len(attester_slashing()) is None,
        well_formed(attestation()),
        fixed_len(attestation()) is None,
{
    lemma_part_types();
    lemma_byte_vector(96);
    reveal_with_fuel(sum_to, 4);
    reveal_with_fuel(well_formed, 2);
    let indexed = indexed_attestation()->Container_0;
    lemma_container(indexed, seq![4nat, 128, 96]);
    lemma_variable_container(indexed, 0);
    let slashing = attester_slashing()->Container_0;
    lemma_container(slashing, seq![4nat, 4]);
    lemma_variable_container(slashing, 0);
    let attested = attestation()->Container_0;
    lemma_container(attested, seq![4nat, 128, 96]);
    lemma_variable_container(attested, 0);
}

/// What field `k` of an execution payload takes up in its fixed part.
pub open spec fn payload_part_len(k: int) -> nat {
    if k == 13 || k == 14 {
        4
    } else {
        payload_header_part_len(k)
    }
}

/// Where the part of field `k` of an execution payload starts.
pub open spec fn payload_part_pos(k: int) -> nat {
    if k <= 13 {
        payload_header_part_pos(k)
    } else if k <= 15 {
        (508 + 4 * (k - 14)) as nat
    } else {
        (512 + 8 * (k - 15)) as nat
    }
}

/// Each field of an execution payload is well formed and takes up the length
/// given for it.
pub proof fn lemma_payload_field(k: int)
    requires
        0 <= k < 17,
    ensures
        well_formed(execution_payload_field(k)),
        part_len(execution_payload_field(k)) == payload_part_len(k),
        (k == 10 || k == 13 || k == 14) ==> fixed_len(execution_payload_field(k)) is None,
{
    lemma_payload_header_field(k);
    lemma_block_fixed_types();
    reveal_with_fuel(well_formed, 3);
}

/// Where the parts of an execution payload start.
pub proof fn lemma_payload_part_pos(fork: ForkName, k: nat)
    requires
        k <= payload_header_len(fork),
    ensures
        part_pos(execution_payload(fork)->Container_0, k) == payload_part_pos(k as int),
    decreases k,
{
    if k > 0 {
        lemma_payload_part_pos(fork, (k - 1) as nat);
        lemma_payload_field(k - 1);
    }
}

/// The execution payload is well formed and of no fixed length.
pub proof fn lemma_execution_payload(fork: ForkName)
    ensures
        well_formed(execution_payload(fork)),
        fixed_len(execution_payload(fork)) is None,
        part_len(execution_payload(fork)) == 4,
{
    let fields = execution_payload(fork)->Container_0;
    lemma_payload_part_pos(fork, payload_header_len(fork));
    assert forall|k: int| 0 <= k < fields.len() implies well_formed(#[trigger] fields[k]) by {
        lemma_payload_field(k);
    }
    lemma_payload_field(10);
    lemma_variable_container(fields, 10);
}

/// What field `k` of the body of a block takes up in its fixed part.
pub open spec fn body_part_len(k: int) -> nat {
    if k == 0 {
        96
    } else if k == 1 {
        72
    } else if k == 2 {
        32
    } else if k == 8 {
        160
    } else {
        4
    }
}

/// Where the part of field `k` of the body of a block starts.
pub open spec fn body_part_pos(k: int) -> nat {
    if k <= 0 {
        0
    } else if k == 1 {
        96
    } else if k == 2 {
        168
    } else if k <= 8 {
        (200 + 4 * (k - 3)) as nat
    } else {
        (380 + 4 * (k - 9)) as nat
    }
}

/// Each field of the body of a block is well formed and takes up the length
/// given for it.
pub proof fn lemma_body_field(fork: ForkName, k: int)
    requires
        0 <= k < body_field_count(fork),
    ensures
        well_formed(body_field(fork, k)),
        part_len(body_field(fork, k)) == body_part_len(k),
        k == 3 ==> fixed_len(body_field(fork, k)) is None,
{
    lemma_part_types();
    lemma_block_fixed_types();
    lemma_block_variable_types();
    lemma_execution_payload(fork);
    lemma_byte_vector(32);
    lemma_byte_vector(48);
    lemma_byte_vector(96);
    reveal_with_fuel(well_formed, 2);
}

/// Where the parts of the body of a block start.
pub proof fn lemma_body_part_pos(fork: ForkName, k: nat)
    requires
        k <= body_field_count(fork),
    ensures
        part_pos(block_body(fork)->Container_0, k) == body_part_pos(k as int),
    decreases k,
{
    if k > 0 {
        lemma_body_part_pos(fork, (k - 1) as nat);
        lemma_body_field(fork, k - 1);
    }
}

/// The block of each fork is well formed, and its fixed part is 84 bytes long.
pub proof fn lemma_beacon_block_well_formed(fork: ForkName)
    ensures
        well_formed(block_body(fork)),
        fixed_len(block_body(fork)) is None,
        well_formed(beacon_block(fork)),
        part_pos(beacon_block(fork)->Container_0, 5) == 84,
{
    let fields = block_body(fork)->Container_0;
    lemma_body_part_pos(fork, body_field_count(fork));
    assert forall|k: int| 0 <= k < fields.len() implies well_formed(#[trigger] fields[k]) by {
        lemma_body_field(fork, k);
    }
    lemma_body_field(fork, 3);
    lemma_variable_container(fields, 3);
    lemma_byte_vector(32);
    reveal_with_fuel(sum_to, 6);
    lemma_container(beacon_block(fork)->Container_0, seq![8nat, 8, 32, 32, 4]);
}

/// The schema of a signature.
fn signature_schema() -> (t: SszType)
    ensures
        t@ == signature(),
{
    byte_vector_schema(96)
}

/// The schema of `SignedBeaconBlockHeader`.
fn signed_block_header_schema() -> (t: SszType)
    ensures
        t@ == signed_block_header(),
{
    let mut fields: Vec<SszType> = Vec::new();
    fields.push(block_header_schema());
    fields.push(signature_schema());
    container_schema(fields, Ghost(signed_block_header()->Container_0))
}

/// The schema of `ProposerSlashing`.
fn proposer_slashing_schema() -> (t: SszType)
    ensures
        t@ == proposer_slashing(),
{
    let mut fields: Vec<SszType> = Vec::new();
    fields.push(signed_block_header_schema());
    fields.push(signed_block_header_schema());
    container_schema(fields, Ghost(proposer_slashing()->Container_0))
}

/// The schema of `IndexedAttestation`.
fn indexed_attestation_schema() -> (t: SszType)
    ensures
        t@ == indexed_attestation(),
{
    let mut fields: Vec<SszType> = Vec::new();
    fields.push(list_schema(uint64_schema(), MAX_VALIDATORS_PER_COMMITTEE));
    fields.push(attestation_data_schema());
    fields.push(signature_schema());
    container_schema(fields, Ghost(indexed_attestation()->Container_0))
}

/// The schema of `AttesterSlashing`.
fn attester_slashing_schema() -> (t: SszType)
    ensures
        t@ == attester_slashing(),
{
    let mut fields: Vec<SszType> = Vec::new();
    fields.push(indexed_attestation_schema());
    fields.push(indexed_attestation_schema());
    container_schema(fields, Ghost(attester_slashing()->Container_0))
}

/// The schema of `Attestation`.
fn attestation_schema() -> (t: SszType)
    ensures
        t@ == attestation(),
{
    let mut fields: Vec<SszType> = Vec::new();
    fields.push(SszType::Bitlist(MAX_VALIDATORS_PER_COMMITTEE));
    fields.push(attestation_data_schema());
    fields.push(signature_schema());
    container_schema(fields, Ghost(attestation()->Container_0))
}

/// The schema of `DepositData`.
fn deposit_data_schema() -> (t: SszType)
    ensures
        t@ == deposit_data(),
{
    let mut fields: Vec<SszType> = Vec::new();
    fields.push(byte_vector_schema(48));
    fields.push(byte_vector_schema(32));
    fields.push(uint64_schema());
    fields.push(signature_schema());
    container_schema(fields, Ghost(deposit_data()->Container_0))
}

/// The schema of `Deposit`.
fn deposit_schema() -> (t: SszType)
    ensures
        t@ == deposit(),
{
    let mut fields: Vec<SszType> = Vec::new();
    fields.push(vector_schema(byte_vector_schema(32), DEPOSIT_PROOF_LENGTH));
    fields.push(deposit_data_schema());
    container_schema(fields, Ghost(deposit()->Container_0))
}

/// The schema of `VoluntaryExit`.
fn voluntary_exit_schema() -> (t: SszType)
    ensures
        t@ == voluntary_exit(),
{
    let mut fields: Vec<SszType> = Vec::new();
    fields.push(uint64_schema());
    fields.push(uint64_schema());
    container_schema(fields, Ghost(voluntary_exit()->Container_0))
}

/// The schema of `SignedVoluntaryExit`.
fn signed_voluntary_exit_schema() -> (t: SszType)
    ensures
        t@ == signed_voluntary_exit(),
{
    let mut fields: Vec<SszType> = Vec::new();
    fields.push(voluntary_exit_schema());
    fields.push(signature_schema());
    container_schema(fields, Ghost(signed_voluntary_exit()->Container_0))
}

/// The schema of `SyncAggregate`.
fn sync_aggregate_schema() -> (t: SszType)
    ensures
        t@ == sync_aggregate(),
{
    let mut fields: Vec<SszType> = Vec::new();
    fields.push(SszType::Bitvector(SYNC_COMMITTEE_BITS));
    fields.push(signature_schema());
    container_schema(fields, Ghost(sync_aggregate()->Container_0))
}

/// The schema of `Withdrawal`.
fn withdrawal_schema() -> (t: SszType)
    ensures
        t@ == withdrawal(),
{
    let mut fields: Vec<SszType> = Vec::new();
    fields.push(uint64_schema());
    fields.push(uint64_schema());
    fields.push(byte_vector_schema(20));
    fields.push(uint64_schema());
    container_schema(fields, Ghost(withdrawal()->Container_0))
}

/// The schema of `SignedBLSToExecutionChange`.
fn signed_bls_change_schema() -> (t: SszType)
    ensures
        t@ == signed_bls_change(),
{
    let mut change: Vec<SszType> = Vec::new();
    change.push(uint64_schema());
    change.push(byte_vector_schema(48));
    change.push(byte_vector_schema(20));
    let mut fields: Vec<SszType> = Vec::new();
    fields.push(container_schema(change, Ghost(bls_change()->Container_0)));
    fields.push(signature_schema());
    container_schema(fields, Ghost(signed_bls_change()->Container_0))
}

/// The schema of `ExecutionPayload` under a fork.
fn execution_payload_schema(fork: ForkName) -> (t: SszType)
    ensures
        t@ == execution_payload(fork),
{
    let count: usize = match fork {
        ForkName::Capella => 15,
        ForkName::Deneb => 17,
        _ => 14,
    };
    let mut fields: Vec<SszType> = Vec::with_capacity(count);
    let mut k: usize = 0;
    while k < count
        invariant
            k <= count,
            fields@.len() == k,
            forall|j: int| 0 <= j < k ==> (#[trigger] fields@[j])@ == execution_payload_field(j),
        decreases count - k,
    {
        let field = if k == 13 {
            list_schema(
                byte_list_schema(MAX_BYTES_PER_TRANSACTION),
                MAX_TRANSACTIONS_PER_PAYLOAD,
            )
        } else if k == 14 {
            list_schema(withdrawal_schema(), MAX_WITHDRAWALS_PER_PAYLOAD)
        } else {
            crate::beacon_schema::payload_header_field_schema(k)
        };
        fields.push(field);
        k += 1;
    }
    container_schema(fields, Ghost(execution_payload(fork)->Container_0))
}

/// The schema of field `k` of the body of a block under a fork.
fn body_field_schema(fork: ForkName, k: usize) -> (t: SszType)
    ensures
        t@ == body_field(fork, k as int),
{
    if k == 0 {
        signature_schema()
    } else if k == 1 {
        eth1_data_schema()
    } else if k == 2 {
        byte_vector_schema(32)
    } else if k == 3 {
        list_schema(proposer_slashing_schema(), MAX_PROPOSER_SLASHINGS)
    } else if k == 4 {
        list_schema(attester_slashing_schema(), MAX_ATTESTER_SLASHINGS)
    } else if k == 5 {
        list_schema(attestation_schema(), MAX_ATTESTATIONS)
    } else if k == 6 {
        list_schema(deposit_schema(), MAX_DEPOSITS)
    } else if k == 7 {
        list_schema(signed_voluntary_exit_schema(), MAX_VOLUNTARY_EXITS)
    } else if k == 8 {
        sync_aggregate_schema()
    } else if k == 9 {
        execution_payload_schema(fork)
    } else if k == 10 {
        list_schema(signed_bls_change_schema(), MAX_BLS_TO_EXECUTION_CHANGES)
    } else {
        list_schema(byte_vector_schema(48), MAX_BLOB_COMMITMENTS_PER_BLOCK)
    }
}

/// The schema of `BeaconBlockBody` under a fork.
pub fn block_body_schema(fork: ForkName) -> (t: SszType)
    ensures
        t@ == block_body(fork),
{
    let count: usize = match fork {
        ForkName::Base => 8,
        ForkName::Altair => 9,
        ForkName::Bellatrix => 10,
        ForkName::Capella => 11,
        ForkName::Deneb => 12,
    };
    let mut fields: Vec<SszType> = Vec::with_capacity(count);
    let mut k: usize = 0;
    while k < count
        invariant
            k <= count,
            fields@.len() == k,
            forall|j: int| 0 <= j < k ==> (#[trigger] fields@[j])@ == body_field(fork, j),
        decreases count - k,
    {
        fields.push(body_field_schema(fork, k));
        k += 1;
    }
    container_schema(fields, Ghost(block_body(fork)->Container_0))
}

/// The schema of `BeaconBlock` under a fork.
pub fn beacon_block_schema(fork: ForkName) -> (t: SszType)
    ensures
        t@ == beacon_block(fork),
        well_formed(t@),
{
    proof {
        lemma_beacon_block_well_formed(fork);
    }
    let mut fields: Vec<SszType> = Vec::new();
    fields.push(uint64_schema());
    fields.push(uint64_schema());
    fields.push(byte_vector_schema(32));
    fields.push(byte_vector_schema(32));
    fields.push(block_body_schema(fork));
    container_schema(fields, Ghost(beacon_block(fork)->Container_0))
}

/// A decoded block, as the contracts speak of it: its fork and its bytes.
pub struct BeaconBlockView {
    pub fork: ForkName,
    pub bytes: Seq<u8>,
}

/// A block of the beacon chain, decoded under one fork.
pub struct BeaconBlock {
    fork: ForkName,
    bytes: Vec<u8>,
}

impl View for BeaconBlock {
    type V = BeaconBlockView;

    closed spec fn view(&self) -> BeaconBlockView {
        BeaconBlockView { fork: self.fork, bytes: self.bytes@ }
    }
}

/// The bytes of a block hold at least its fixed part of 84 bytes.
pub proof fn lemma_block_len(fork: ForkName, bytes: Seq<u8>)
    requires
        valid(beacon_block(fork), bytes),
    ensures
        bytes.len() >= 84,
{
    lemma_beacon_block_well_formed(fork);
}

impl BeaconBlock {
    #[verifier::type_invariant]
    spec fn decoded(&self) -> bool {
        valid(beacon_block(self.fork), self.bytes@)
    }

    /// Decodes a block from its serialization under the fork given. The bytes
    /// have to fit the fields of that fork exactly.
    pub fn from_ssz_bytes_for_fork(bytes: &[u8], fork: ForkName) -> (block: Result<
        BeaconBlock,
        Error,
    >)
        ensures
            match block {
                Ok(b) => valid(beacon_block(fork), bytes@) && b@ == (BeaconBlockView {
                    fork,
                    bytes: bytes@,
                }),
                Err(e) => !valid(beacon_block(fork), bytes@) && e == Error::SszError,
            },
    {
        let schema = beacon_block_schema(fork);
        if schema.is_valid(bytes) {
            Ok(BeaconBlock { fork, bytes: slice_to_vec(bytes) })
        } else {
            Err(Error::SszError)
        }
    }

    /// The fork that the block was decoded under.
    pub fn fork_name(&self) -> (fork: ForkName)
        ensures
            fork == self@.fork,
    {
        self.fork
    }

    /// The serialization of the block.
    pub fn as_ssz_bytes(&self) -> (bytes: &[u8])
        ensures
            bytes@ == self@.bytes,
            valid(beacon_block(self@.fork), self@.bytes),
    {
        proof {
            use_type_invariant(self);
        }
        self.bytes.as_slice()
    }

    /// The slot of the block.
    pub fn slot(&self) -> (slot: u64)
        ensures
            slot == u64_le(self@.bytes, 0),
    {
        proof {
            use_type_invariant(self);
            lemma_block_len(self.fork, self.bytes@);
        }
        let low = read_offset(self.bytes.as_slice(), 0);
        let high = read_offset(self.bytes.as_slice(), 4);
        low + 0x1_0000_0000 * high
    }

    /// The index of the validator that proposed the block.
    pub fn proposer_index(&self) -> (index: u64)
        ensures
            index == u64_le(self@.bytes, 8),
    {
        proof {
            use_type_invariant(self);
            lemma_block_len(self.fork, self.bytes@);
        }
        let low = read_offset(self.bytes.as_slice(), 8);
        let high = read_offset(self.bytes.as_slice(), 12);
        low + 0x1_0000_0000 * high
    }

    /// The root of the block before this one.
    pub fn parent_root(&self) -> (root: Hash256)
        ensures
            root@ == self@.bytes.subrange(16, 48),
    {
        proof {
            use_type_invariant(self);
            lemma_block_len(self.fork, self.bytes@);
        }
        copy_root(self.bytes.as_slice(), 16)
    }

    /// The root of the state after this block.
    pub fn state_root(&self) -> (root: Hash256)
        ensures
            root@ == self@.bytes.subrange(48, 80),
    {
        proof {
            use_type_invariant(self);
            lemma_block_len(self.fork, self.bytes@);
        }
        copy_root(self.bytes.as_slice(), 48)
    }

    /// The hash tree root of the block.
    pub fn tree_hash_root(&self) -> (root: Hash256)
        ensures
            root@ == hash_tree_root(beacon_block(self@.fork), self@.bytes),
    {
        proof {
            use_type_invariant(self);
        }
        let schema = beacon_block_schema(self.fork);
        let zeros = ZeroHashes::new();
        schema.hash_tree_root(self.bytes.as_slice(), &zeros)
    }
}

/// The 32 bytes from `start` on.
fn copy_root(b: &[u8], start: usize) -> (root: Hash256)
    requires
        start + 32 <= b@.len(),
    ensures
        root@ == b@.subrange(start as int, start + 32),
{
    let total = b.len();
    let mut root: Hash256 = [0u8; 32];
    let mut j: usize = 0;
    while j < 32
        invariant
            j <= 32,
            total == b@.len(),
            start + 32 <= b@.len(),
            forall|m: int| 0 <= m < j ==> root@[m] == b@[start + m],
        decreases 32 - j,
    {
        root[j] = b[start + j];
        j += 1;
    }
    assert(root@ =~= b@.subrange(start as int, start + 32));
    root
}

} // verus!
