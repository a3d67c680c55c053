//! The state of the beacon chain as a type of the serialization, fork by fork.

use vstd::prelude::*;
use crate::fork_name::ForkName;
use crate::schema::{
    all_fixed, fixed_len, lemma_fixed_container, part_len, part_pos, sum_to, well_formed, SszType,
    TypeSpec,
};

verus! {

/// The number of block roots and of state roots that a state keeps.
pub const SLOTS_PER_HISTORICAL_ROOT: u64 = 8192;

/// The most historical roots, and the most historical summaries.
pub const HISTORICAL_ROOTS_LIMIT: u64 = 16777216;

/// The most eth1 data votes of one voting period.
pub const ETH1_DATA_VOTES_LIMIT: u64 = 2048;

/// The most validators.
pub const VALIDATOR_REGISTRY_LIMIT: u64 = 1099511627776;

/// The number of randao mixes that a state keeps.
pub const EPOCHS_PER_HISTORICAL_VECTOR: u64 = 65536;

/// The number of epochs whose slashings a state keeps.
pub const EPOCHS_PER_SLASHINGS_VECTOR: u64 = 8192;

/// The most pending attestations of one epoch.
pub const PENDING_ATTESTATIONS_LIMIT: u64 = 4096;

/// The most validators in one committee.
pub const MAX_VALIDATORS_PER_COMMITTEE: u64 = 2048;

/// The number of justification bits.
pub const JUSTIFICATION_BITS_LENGTH: u64 = 4;

/// The number of members of a sync committee.
pub const SYNC_COMMITTEE_SIZE: u64 = 512;

/// The length of the logs bloom of an execution payload.
pub const BYTES_PER_LOGS_BLOOM: u64 = 256;

/// The most bytes of extra data in an execution payload.
pub const MAX_EXTRA_DATA_BYTES: u64 = 32;

/// The place of the next sync committee among the fields of a state.
pub const NEXT_SYNC_COMMITTEE_FIELD: usize = 23;

/// A 64-bit unsigned integer.
pub open spec fn uint64() -> TypeSpec {
    TypeSpec::Uint(8)
}

/// A fixed number of bytes.
pub open spec fn byte_vector(n: nat) -> TypeSpec {
    TypeSpec::Vector(Box::new(TypeSpec::Uint(1)), n)
}

/// A number of bytes up to a limit.
pub open spec fn byte_list(limit: nat) -> TypeSpec {
    TypeSpec::List(Box::new(TypeSpec::Uint(1)), limit)
}

/// A fixed number of elements of one type.
pub open spec fn vector_of(elem: TypeSpec, n: nat) -> TypeSpec {
    TypeSpec::Vector(Box::new(elem), n)
}

/// A number of elements of one type up to a limit.
pub open spec fn list_of(elem: TypeSpec, limit: nat) -> TypeSpec {
    TypeSpec::List(Box::new(elem), limit)
}

/// `Fork`: previous version, current version, epoch.
pub open spec fn fork_data() -> TypeSpec {
    TypeSpec::Container(seq![byte_vector(4), byte_vector(4), uint64()])
}

/// `Checkpoint`: epoch, root.
pub open spec fn checkpoint() -> TypeSpec {
    TypeSpec::Container(seq![uint64(), byte_vector(32)])
}

/// `BeaconBlockHeader`: slot, proposer index, parent root, state root, body
/// root.
pub open spec fn block_header() -> TypeSpec {
    TypeSpec::Container(
        seq![uint64(), uint64(), byte_vector(32), byte_vector(32), byte_vector(32)],
    )
}

/// `Eth1Data`: deposit root, deposit count, block hash.
pub open spec fn eth1_data() -> TypeSpec {
    TypeSpec::Container(seq![byte_vector(32), uint64(), byte_vector(32)])
}

/// `Validator`: public key, withdrawal credentials, effective balance, slashed,
/// and the four epochs of its life.
pub open spec fn validator() -> TypeSpec {
    TypeSpec::Container(
        seq![
            byte_vector(48),
            byte_vector(32),
            uint64(),
            TypeSpec::Boolean,
            uint64(),
            uint64(),
            uint64(),
            uint64(),
        ],
    )
}

/// `AttestationData`: slot, index, block root, source, target.
pub open spec fn attestation_data() -> TypeSpec {
    TypeSpec::Container(seq![uint64(), uint64(), byte_vector(32), checkpoint(), checkpoint()])
}

/// `PendingAttestation`: aggregation bits, data, inclusion delay, proposer
/// index.
pub open spec fn pending_attestation() -> TypeSpec {
    TypeSpec::Container(
        seq![
            TypeSpec::Bitlist(MAX_VALIDATORS_PER_COMMITTEE as nat),
            attestation_data(),
            uint64(),
            uint64(),
        ],
    )
}

/// `SyncCommittee`: the public keys of its members, and their aggregate.
pub open spec fn sync_committee() -> TypeSpec {
    TypeSpec::Container(
        seq![vector_of(byte_vector(48), SYNC_COMMITTEE_SIZE as nat), byte_vector(48)],
    )
}

/// `HistoricalSummary`: block summary root, state summary root.
pub open spec fn historical_summary() -> TypeSpec {
    TypeSpec::Container(seq![byte_vector(32), byte_vector(32)])
}

/// The number of fields of the execution payload header under a fork.
pub open spec fn payload_header_len(fork: ForkName) -> nat {
    match fork {
        ForkName::Capella => 15,
        ForkName::Deneb => 17,
        _ => 14,
    }
}

/// Field `k` of the execution payload header: parent hash, fee recipient, state
/// root, receipts root, logs bloom, previous randao, block number, gas limit,
/// gas used, timestamp, extra data, base fee per gas, block hash, transactions
/// root; then the withdrawals root, and then blob gas used and excess blob gas.
pub open spec fn payload_header_field(k: int) -> TypeSpec {
    if k == 1 {
        byte_vector(20)
    } else if k == 4 {
        byte_vector(BYTES_PER_LOGS_BLOOM as nat)
    } else if 6 <= k <= 9 || k == 15 || k == 16 {
        uint64()
    } else if k == 10 {
        byte_list(MAX_EXTRA_DATA_BYTES as nat)
    } else if k == 11 {
        TypeSpec::Uint(32)
    } else {
        byte_vector(32)
    }
}

/// `ExecutionPayloadHeader` under a fork.
pub open spec fn payload_header(fork: ForkName) -> TypeSpec {
    TypeSpec::Container(Seq::new(payload_header_len(fork), |k: int| payload_header_field(k)))
}

/// The number of fields of a state under a fork.
pub open spec fn state_field_count(fork: ForkName) -> nat {
    match fork {
        ForkName::Base => 21,
        ForkName::Altair => 24,
        ForkName::Bellatrix => 25,
        ForkName::Capella => 28,
        ForkName::Deneb => 28,
    }
}

/// Field `k` of a state under a fork. In order: genesis time, genesis
/// validators root, slot, fork, latest block header, block roots, state roots,
/// historical roots, eth1 data, eth1 data votes, eth1 deposit index, validators,
/// balances, randao mixes, slashings, the attestations or the participation of
/// the previous and of the current epoch, justification bits, the previous
/// justified, current justified and finalized checkpoints; from Altair on
/// inactivity scores, current and next sync committee; from Bellatrix on the
/// latest execution payload header; from Capella on the next withdrawal index,
/// the next withdrawal validator index and the historical summaries.
pub open spec fn state_field(fork: ForkName, k: int) -> TypeSpec {
    if k == 0 || k == 2 || k == 10 || k == 25 || k == 26 {
        uint64()
    } else if k == 1 {
        byte_vector(32)
    } else if k == 3 {
        fork_data()
    } else if k == 4 {
        block_header()
    } else if k == 5 || k == 6 {
        vector_of(byte_vector(32), SLOTS_PER_HISTORICAL_ROOT as nat)
    } else if k == 7 {
        list_of(byte_vector(32), HISTORICAL_ROOTS_LIMIT as nat)
    } else if k == 8 {
        eth1_data()
    } else if k == 9 {
        list_of(eth1_data(), ETH1_DATA_VOTES_LIMIT as nat)
    } else if k == 11 {
        list_of(validator(), VALIDATOR_REGISTRY_LIMIT as nat)
    } else if k == 12 || k == 21 {
        list_of(uint64(), VALIDATOR_REGISTRY_LIMIT as nat)
    } else if k == 13 {
        vector_of(byte_vector(32), EPOCHS_PER_HISTORICAL_VECTOR as nat)
    } else if k == 14 {
        vector_of(uint64(), EPOCHS_PER_SLASHINGS_VECTOR as nat)
    } else if k == 15 || k == 16 {
        if fork == ForkName::Base {
            list_of(pending_attestation(), PENDING_ATTESTATIONS_LIMIT as nat)
        } else {
            byte_list(VALIDATOR_REGISTRY_LIMIT as nat)
        }
    } else if k == 17 {
        TypeSpec::Bitvector(JUSTIFICATION_BITS_LENGTH as nat)
    } else if 18 <= k <= 20 {
        checkpoint()
    } else if k == 22 || k == 23 {
        sync_committee()
    } else if k == 24 {
        payload_header(fork)
    } else {
        list_of(historical_summary(), HISTORICAL_ROOTS_LIMIT as nat)
    }
}

/// The fields of a state under a fork.
pub open spec fn state_fields(fork: ForkName) -> Seq<TypeSpec> {
    Seq::new(state_field_count(fork), |k: int| state_field(fork, k))
}

/// `BeaconState` under a fork.
pub open spec fn beacon_state(fork: ForkName) -> TypeSpec {
    TypeSpec::Container(state_fields(fork))
}

/// A byte vector is well formed, and of fixed length.
pub proof fn lemma_byte_vector(n: nat)
    requires
        1 <= n < 0x1_0000_0000,
    ensures
        well_formed(byte_vector(n)),
        fixed_len(byte_vector(n)) == Some(n),
{
    reveal_with_fuel(fixed_len, 3);
    reveal_with_fuel(part_len, 3);
    reveal_with_fuel(well_formed, 3);
    assert(1 * n == n);
}

/// The containers that a state is made of are well formed, and those without a
/// list in them are of the lengths given.
pub proof fn lemma_part_types()
    ensures
        well_formed(fork_data()),
        fixed_len(fork_data()) == Some(16nat),
        well_formed(checkpoint()),
        fixed_len(checkpoint()) == Some(40nat),
        well_formed(block_header()),
        fixed_len(block_header()) == Some(112nat),
        well_formed(eth1_data()),
        fixed_len(eth1_data()) == Some(72nat),
        well_formed(validator()),
        fixed_len(validator()) == Some(121nat),
        well_formed(historical_summary()),
        fixed_len(historical_summary()) == Some(64nat),
        well_formed(attestation_data()),
        fixed_len(attestation_data()) == Some(128nat),
        well_formed(sync_committee()),
        fixed_len(sync_committee()) == Some(24624nat),
{
    lemma_byte_vector(4);
    lemma_byte_vector(32);
    lemma_byte_vector(48);
    reveal_with_fuel(sum_to, 9);
    lemma_fixed_container(seq![byte_vector(4), byte_vector(4), uint64()], seq![4nat, 4, 8]);
    lemma_fixed_container(seq![uint64(), byte_vector(32)], seq![8nat, 32]);
    lemma_fixed_container(
        seq![uint64(), uint64(), byte_vector(32), byte_vector(32), byte_vector(32)],
        seq![8nat, 8, 32, 32, 32],
    );
    lemma_fixed_container(seq![byte_vector(32), uint64(), byte_vector(32)], seq![32nat, 8, 32]);
    lemma_fixed_container(
        seq![
            byte_vector(48),
            byte_vector(32),
            uint64(),
            TypeSpec::Boolean,
            uint64(),
            uint64(),
            uint64(),
            uint64(),
        ],
        seq![48nat, 32, 8, 1, 8, 8, 8, 8],
    );
    lemma_fixed_container(seq![byte_vector(32), byte_vector(32)], seq![32nat, 32]);
    lemma_fixed_container(
        seq![uint64(), uint64(), byte_vector(32), checkpoint(), checkpoint()],
        seq![8nat, 8, 32, 40, 40],
    );
    assert(well_formed(vector_of(byte_vector(48), 512)) && fixed_len(
        vector_of(byte_vector(48), 512),
    ) == Some(24576nat)) by {
        reveal_with_fuel(fixed_len, 2);
        reveal_with_fuel(part_len, 2);
    }
    lemma_fixed_container(
        seq![vector_of(byte_vector(48), SYNC_COMMITTEE_SIZE as nat), byte_vector(48)],
        seq![24576nat, 48],
    );
}



/// What field `k` of an execution payload header takes up in its fixed part.
pub open spec fn payload_header_part_len(k: int) -> nat {
    if k == 1 {
        20
    } else if k == 4 {
        256
    } else if 6 <= k <= 9 || k == 15 || k == 16 {
        8
    } else if k == 10 {
        4
    } else {
        32
    }
}

/// Where the part of field `k` of an execution payload header starts.
pub open spec fn payload_header_part_pos(k: int) -> nat {
    if k <= 0 {
        0
    } else if k == 1 {
        32
    } else if k <= 4 {
        (52 + 32 * (k - 2)) as nat
    } else if k <= 6 {
        (372 + 32 * (k - 5)) as nat
    } else if k <= 10 {
        (404 + 8 * (k - 6)) as nat
    } else if k <= 15 {
        (440 + 32 * (k - 11)) as nat
    } else {
        (568 + 8 * (k - 15)) as nat
    }
}

/// Each field of an execution payload header is well formed and takes up the
/// length given for it; the extra data alone is of no fixed length.
pub proof fn lemma_payload_header_field(k: int)
    requires
        0 <= k < 17,
    ensures
        well_formed(payload_header_field(k)),
        part_len(payload_header_field(k)) == payload_header_part_len(k),
        (fixed_len(payload_header_field(k)) is None) <==> k == 10,
{
    lemma_byte_vector(20);
    lemma_byte_vector(32);
    lemma_byte_vector(256);
    reveal_with_fuel(well_formed, 2);
}

/// Where the parts of an execution payload header start.
pub proof fn lemma_payload_header_part_pos(fork: ForkName, k: nat)
    requires
        k <= payload_header_len(fork),
    ensures
        part_pos(payload_header(fork)->Container_0, k) == payload_header_part_pos(k as int),
    decreases k,
{
    if k > 0 {
        lemma_payload_header_part_pos(fork, (k - 1) as nat);
        lemma_payload_header_field(k - 1);
    }
}

/// The fixed part of an execution payload header is 536 bytes long under
/// Bellatrix, 568 under Capella and 584 under Deneb.
pub open spec fn payload_header_fixed_part(fork: ForkName) -> nat {
    match fork {
        ForkName::Capella => 568,
        ForkName::Deneb => 584,
        _ => 536,
    }
}

/// The execution payload header is well formed, of no fixed length, and its
/// fixed part ends where `payload_header_fixed_part` says.
pub proof fn lemma_payload_header(fork: ForkName)
    ensures
        well_formed(payload_header(fork)),
        fixed_len(payload_header(fork)) is None,
        part_pos(payload_header(fork)->Container_0, payload_header_len(fork))
            == payload_header_fixed_part(fork),
{
    let fields = payload_header(fork)->Container_0;
    lemma_payload_header_part_pos(fork, payload_header_len(fork));
    assert forall|k: int| 0 <= k < fields.len() implies well_formed(#[trigger] fields[k]) by {
        lemma_payload_header_field(k);
    }
    lemma_payload_header_field(10);
    if all_fixed(fields, fields.len()) {
        crate::schema::lemma_all_fixed(fields, fields.len(), 10);
    }
}

/// What field `k` of a state takes up in the fixed part.
pub open spec fn state_part_len(k: int) -> nat {
    if k == 0 || k == 2 || k == 10 || k == 25 || k == 26 {
        8
    } else if k == 1 {
        32
    } else if k == 3 {
        16
    } else if k == 4 {
        112
    } else if k == 5 || k == 6 {
        262144
    } else if k == 8 {
        72
    } else if k == 13 {
        2097152
    } else if k == 14 {
        65536
    } else if k == 17 {
        1
    } else if 18 <= k <= 20 {
        40
    } else if k == 22 || k == 23 {
        24624
    } else {
        4
    }
}

/// Whether field `k` of a state is of fixed length.
pub open spec fn state_field_is_fixed(k: int) -> bool {
    !(k == 7 || k == 9 || k == 11 || k == 12 || k == 15 || k == 16 || k == 21 || k == 24 || k
        == 27)
}

/// Where the part of field `k` of a state starts.
pub open spec fn state_part_pos(k: int) -> nat {
    if k <= 0 {
        0
    } else if k == 1 {
        8
    } else if k == 2 {
        40
    } else if k == 3 {
        48
    } else if k == 4 {
        64
    } else if k == 5 {
        176
    } else if k == 6 {
        262320
    } else if k == 7 {
        524464
    } else if k == 8 {
        524468
    } else if k == 9 {
        524540
    } else if k == 10 {
        524544
    } else if k <= 13 {
        (524552 + 4 * (k - 11)) as nat
    } else if k == 14 {
        2621712
    } else if k <= 17 {
        (2687248 + 4 * (k - 15)) as nat
    } else if k <= 21 {
        (2687257 + 40 * (k - 18)) as nat
    } else if k == 22 {
        2687381
    } else if k == 23 {
        2712005
    } else if k == 24 {
        2736629
    } else if k == 25 {
        2736633
    } else if k == 26 {
        2736641
    } else if k == 27 {
        2736649
    } else {
        2736653
    }
}

/// Each field of a state is well formed and takes up the length given for it.
pub proof fn lemma_state_field(fork: ForkName, k: int)
    requires
        0 <= k < state_field_count(fork),
    ensures
        well_formed(state_field(fork, k)),
        part_len(state_field(fork, k)) == state_part_len(k),
        (fixed_len(state_field(fork, k)) is Some) <==> state_field_is_fixed(k),
{
    lemma_byte_vector(32);
    lemma_part_types();
    lemma_payload_header(fork);
    reveal_with_fuel(well_formed, 2);
    reveal_with_fuel(fixed_len, 2);
    reveal_with_fuel(part_len, 2);
    if k == 15 || k == 16 {
        lemma_pending_attestation();
    }
}

/// A pending attestation is well formed; its bit list leaves it without a
/// fixed length.
pub proof fn lemma_pending_attestation()
    ensures
        well_formed(pending_attestation()),
        fixed_len(pending_attestation()) is None,
{
    lemma_part_types();
    let fields = pending_attestation()->Container_0;
    reveal_with_fuel(sum_to, 5);
    reveal_with_fuel(well_formed, 2);
    assert(fields.len() == 4);
    crate::schema::lemma_part_pos_sum(fields, seq![4nat, 128, 8, 8], 4);
    if all_fixed(fields, fields.len()) {
        crate::schema::lemma_all_fixed(fields, fields.len(), 0);
    }
}

/// Where the parts of a state start.
pub proof fn lemma_state_part_pos(fork: ForkName, k: nat)
    requires
        k <= state_field_count(fork),
    ensures
        part_pos(state_fields(fork), k) == state_part_pos(k as int),
    decreases k,
{
    if k > 0 {
        lemma_state_part_pos(fork, (k - 1) as nat);
        lemma_state_field(fork, k - 1);
    }
}

/// The state of each fork is well formed.
pub proof fn lemma_beacon_state_well_formed(fork: ForkName)
    ensures
        well_formed(beacon_state(fork)),
{
    let fields = state_fields(fork);
    lemma_state_part_pos(fork, state_field_count(fork));
    assert forall|k: int| 0 <= k < fields.len() implies well_formed(#[trigger] fields[k]) by {
        lemma_state_field(fork, k);
    }
}



/// The schema of a 64-bit unsigned integer.
pub(crate) fn uint64_schema() -> (t: SszType)
    ensures
        t@ == uint64(),
{
    SszType::Uint(8)
}

/// The schema of a fixed number of bytes.
pub(crate) fn byte_vector_schema(n: u64) -> (t: SszType)
    ensures
        t@ == byte_vector(n as nat),
{
    proof {
        reveal_with_fuel(crate::schema::type_of, 2);
    }
    SszType::Vector(Box::new(SszType::Uint(1)), n)
}

/// The schema of a number of bytes up to a limit.
pub(crate) fn byte_list_schema(limit: u64) -> (t: SszType)
    ensures
        t@ == byte_list(limit as nat),
{
    proof {
        reveal_with_fuel(crate::schema::type_of, 2);
    }
    SszType::List(Box::new(SszType::Uint(1)), limit)
}

/// The schema of a fixed number of elements.
pub(crate) fn vector_schema(elem: SszType, n: u64) -> (t: SszType)
    ensures
        t@ == vector_of(elem@, n as nat),
{
    SszType::Vector(Box::new(elem), n)
}

/// The schema of a number of elements up to a limit.
pub(crate) fn list_schema(elem: SszType, limit: u64) -> (t: SszType)
    ensures
        t@ == list_of(elem@, limit as nat),
{
    SszType::List(Box::new(elem), limit)
}

/// The schema of the container with the fields given.
pub(crate) fn container_schema(fields: Vec<SszType>, Ghost(types): Ghost<Seq<TypeSpec>>) -> (t:
    SszType)
    requires
        fields@.len() == types.len(),
        forall|k: int| 0 <= k < types.len() ==> (#[trigger] fields@[k])@ == types[k],
    ensures
        t@ == TypeSpec::Container(types),
{
    let t = SszType::Container(fields);
    assert(t@->Container_0 =~= types);
    t
}

/// The schema of `Fork`.
pub fn fork_data_schema() -> (t: SszType)
    ensures
        t@ == fork_data(),
{
    let mut fields: Vec<SszType> = Vec::new();
    fields.push(byte_vector_schema(4));
    fields.push(byte_vector_schema(4));
    fields.push(uint64_schema());
    container_schema(fields, Ghost(fork_data()->Container_0))
}

/// The schema of `Checkpoint`.
pub fn checkpoint_schema() -> (t: SszType)
    ensures
        t@ == checkpoint(),
{
    let mut fields: Vec<SszType> = Vec::new();
    fields.push(uint64_schema());
    fields.push(byte_vector_schema(32));
    container_schema(fields, Ghost(checkpoint()->Container_0))
}

/// The schema of `BeaconBlockHeader`.
pub fn block_header_schema() -> (t: SszType)
    ensures
        t@ == block_header(),
{
    let mut fields: Vec<SszType> = Vec::new();
    fields.push(uint64_schema());
    fields.push(uint64_schema());
    fields.push(byte_vector_schema(32));
    fields.push(byte_vector_schema(32));
    fields.push(byte_vector_schema(32));
    container_schema(fields, Ghost(block_header()->Container_0))
}

/// The schema of `Eth1Data`.
pub fn eth1_data_schema() -> (t: SszType)
    ensures
        t@ == eth1_data(),
{
    let mut fields: Vec<SszType> = Vec::new();
    fields.push(byte_vector_schema(32));
    fields.push(uint64_schema());
    fields.push(byte_vector_schema(32));
    container_schema(fields, Ghost(eth1_data()->Container_0))
}

/// The schema of `Validator`.
pub fn validator_schema() -> (t: SszType)
    ensures
        t@ == validator(),
{
    let mut fields: Vec<SszType> = Vec::new();
    fields.push(byte_vector_schema(48));
    fields.push(byte_vector_schema(32));
    fields.push(uint64_schema());
    fields.push(SszType::Boolean);
    fields.push(uint64_schema());
    fields.push(uint64_schema());
    fields.push(uint64_schema());
    fields.push(uint64_schema());
    container_schema(fields, Ghost(validator()->Container_0))
}

/// The schema of `AttestationData`.
pub fn attestation_data_schema() -> (t: SszType)
    ensures
        t@ == attestation_data(),
{
    let mut fields: Vec<SszType> = Vec::new();
    fields.push(uint64_schema());
    fields.push(uint64_schema());
    fields.push(byte_vector_schema(32));
    fields.push(checkpoint_schema());
    fields.push(checkpoint_schema());
    container_schema(fields, Ghost(attestation_data()->Container_0))
}

/// The schema of `PendingAttestation`.
pub fn pending_attestation_schema() -> (t: SszType)
    ensures
        t@ == pending_attestation(),
{
    let mut fields: Vec<SszType> = Vec::new();
    fields.push(SszType::Bitlist(MAX_VALIDATORS_PER_COMMITTEE));
    fields.push(attestation_data_schema());
    fields.push(uint64_schema());
    fields.push(uint64_schema());
    container_schema(fields, Ghost(pending_attestation()->Container_0))
}

/// The schema of `SyncCommittee`.
pub fn sync_committee_schema() -> (t: SszType)
    ensures
        t@ == sync_committee(),
        well_formed(t@),
{
    proof {
        lemma_part_types();
    }
    let mut fields: Vec<SszType> = Vec::new();
    fields.push(vector_schema(byte_vector_schema(48), SYNC_COMMITTEE_SIZE));
    fields.push(byte_vector_schema(48));
    container_schema(fields, Ghost(sync_committee()->Container_0))
}

/// The schema of `HistoricalSummary`.
pub fn historical_summary_schema() -> (t: SszType)
    ensures
        t@ == historical_summary(),
{
    let mut fields: Vec<SszType> = Vec::new();
    fields.push(byte_vector_schema(32));
    fields.push(byte_vector_schema(32));
    container_schema(fields, Ghost(historical_summary()->Container_0))
}

/// The schema of field `k` of an execution payload header.
pub(crate) fn payload_header_field_schema(k: usize) -> (t: SszType)
    ensures
        t@ == payload_header_field(k as int),
{
    if k == 1 {
        byte_vector_schema(20)
    } else if k == 4 {
        byte_vector_schema(BYTES_PER_LOGS_BLOOM)
    } else if (6 <= k && k <= 9) || k == 15 || k == 16 {
        uint64_schema()
    } else if k == 10 {
        byte_list_schema(MAX_EXTRA_DATA_BYTES)
    } else if k == 11 {
        SszType::Uint(32)
    } else {
        byte_vector_schema(32)
    }
}

/// The schema of `ExecutionPayloadHeader` under a fork.
pub fn payload_header_schema(fork: ForkName) -> (t: SszType)
    ensures
        t@ == payload_header(fork),
{
    let count: usize = match fork {
        ForkName::Capella => 15,
        ForkName::Deneb => 17,
        _ => 14,
    };
    let mut fields: Vec<SszType> = Vec::with_capacity(count);
    let mut k: usize = 0;
    while k < count
        invariant
            k <= count,
            fields@.len() == k,
            forall|j: int| 0 <= j < k ==> (#[trigger] fields@[j])@ == payload_header_field(j),
        decreases count - k,
    {
        fields.push(payload_header_field_schema(k));
        k += 1;
    }
    container_schema(fields, Ghost(payload_header(fork)->Container_0))
}

/// The schema of field `k` of a state under a fork.
pub fn state_field_schema(fork: ForkName, k: usize) -> (t: SszType)
    ensures
        t@ == state_field(fork, k as int),
{
    if k == 0 || k == 2 || k == 10 || k == 25 || k == 26 {
        uint64_schema()
    } else if k == 1 {
        byte_vector_schema(32)
    } else if k == 3 {
        fork_data_schema()
    } else if k == 4 {
        block_header_schema()
    } else if k == 5 || k == 6 {
        vector_schema(byte_vector_schema(32), SLOTS_PER_HISTORICAL_ROOT)
    } else if k == 7 {
        list_schema(byte_vector_schema(32), HISTORICAL_ROOTS_LIMIT)
    } else if k == 8 {
        eth1_data_schema()
    } else if k == 9 {
        list_schema(eth1_data_schema(), ETH1_DATA_VOTES_LIMIT)
    } else if k == 11 {
        list_schema(validator_schema(), VALIDATOR_REGISTRY_LIMIT)
    } else if k == 12 || k == 21 {
        list_schema(uint64_schema(), VALIDATOR_REGISTRY_LIMIT)
    } else if k == 13 {
        vector_schema(byte_vector_schema(32), EPOCHS_PER_HISTORICAL_VECTOR)
    } else if k == 14 {
        vector_schema(uint64_schema(), EPOCHS_PER_SLASHINGS_VECTOR)
    } else if k == 15 || k == 16 {
        match fork {
            ForkName::Base => list_schema(pending_attestation_schema(), PENDING_ATTESTATIONS_LIMIT),
            _ => byte_list_schema(VALIDATOR_REGISTRY_LIMIT),
        }
    } else if k == 17 {
        SszType::Bitvector(JUSTIFICATION_BITS_LENGTH)
    } else if 18 <= k && k <= 20 {
        checkpoint_schema()
    } else if k == 22 || k == 23 {
        sync_committee_schema()
    } else if k == 24 {
        payload_header_schema(fork)
    } else {
        list_schema(historical_summary_schema(), HISTORICAL_ROOTS_LIMIT)
    }
}

/// The number of fields of a state under a fork.
pub fn field_count(fork: ForkName) -> (count: usize)
    ensures
        count == state_field_count(fork),
{
    match fork {
        ForkName::Base => 21,
        ForkName::Altair => 24,
        ForkName::Bellatrix => 25,
        ForkName::Capella => 28,
        ForkName::Deneb => 28,
    }
}

/// The schema of `BeaconState` under a fork.
pub fn beacon_state_schema(fork: ForkName) -> (t: SszType)
    ensures
        t@ == beacon_state(fork),
        well_formed(t@),
{
    proof {
        lemma_beacon_state_well_formed(fork);
    }
    let count = field_count(fork);
    let mut fields: Vec<SszType> = Vec::with_capacity(count);
    let mut k: usize = 0;
    while k < count
        invariant
            k <= count,
            fields@.len() == k,
            forall|j: int| 0 <= j < k ==> (#[trigger] fields@[j])@ == state_field(fork, j),
        decreases count - k,
    {
        fields.push(state_field_schema(fork, k));
        k += 1;
    }
    container_schema(fields, Ghost(state_fields(fork)))
}

} // verus!
