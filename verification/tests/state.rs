use beacon_state_proof::beacon_state::{BeaconState, SyncCommittee};
use beacon_state_proof::error::{BeaconStateError, Error};
use beacon_state_proof::fork_name::ForkName;
use beacon_state_proof::hash::Hash256;
use beacon_state_proof::merkle::verify_merkle_proof;
use beacon_state_proof::rpc::{fetch_beacon_state, HttpResponse};
use beacon_state_proof::state_proof_fetcher::{StateProofFetcher, NEXT_SYNC_COMMITTEE_INDEX};

/// A value with its serialization and its hash tree root, the root computed
/// with the `tree_hash` crate alone, or left zero where `w` is not set.
#[derive(Clone)]
struct Val {
    fixed: bool,
    bytes: Vec<u8>,
    root: Hash256,
}

fn th_root(w: bool, bytes: &[u8], leaves: usize) -> Hash256 {
    if !w {
        return [0u8; 32];
    }
    tree_hash::merkle_root(bytes, leaves).0
}

fn th_mix(w: bool, root: Hash256, len: usize) -> Hash256 {
    if !w {
        return [0u8; 32];
    }
    tree_hash::mix_in_length(&tree_hash::Hash256::from_slice(&root), len).0
}

fn uint64(w: bool, v: u64) -> Val {
    let bytes = v.to_le_bytes().to_vec();
    Val { fixed: true, root: th_root(w, &bytes, 1), bytes }
}

fn uint256(w: bool, low: u64) -> Val {
    let mut bytes = vec![0u8; 32];
    bytes[..8].copy_from_slice(&low.to_le_bytes());
    Val { fixed: true, root: th_root(w, &bytes, 1), bytes }
}

fn boolean(w: bool, b: bool) -> Val {
    let bytes = vec![b as u8];
    Val { fixed: true, root: th_root(w, &bytes, 1), bytes }
}

fn byte_vector(w: bool, bytes: Vec<u8>) -> Val {
    let leaves = (bytes.len() + 31) / 32;
    Val { fixed: true, root: th_root(w, &bytes, leaves), bytes }
}

fn pattern(len: usize, seed: u8) -> Vec<u8> {
    (0..len).map(|i| (i as u8).wrapping_mul(31).wrapping_add(seed)).collect()
}

fn concat_roots(elems: &[Val]) -> Vec<u8> {
    let mut roots = Vec::new();
    for e in elems {
        roots.extend_from_slice(&e.root);
    }
    roots
}

fn serialize(fields: &[Val]) -> Vec<u8> {
    let fixed_len: usize = fields.iter().map(|f| if f.fixed { f.bytes.len() } else { 4 }).sum();
    let mut out = Vec::new();
    let mut cursor = fixed_len;
    for f in fields {
        if f.fixed {
            out.extend_from_slice(&f.bytes);
        } else {
            out.extend_from_slice(&(cursor as u32).to_le_bytes());
            cursor += f.bytes.len();
        }
    }
    for f in fields {
        if !f.fixed {
            out.extend_from_slice(&f.bytes);
        }
    }
    out
}

fn container(w: bool, fields: Vec<Val>) -> Val {
    Val {
        fixed: fields.iter().all(|f| f.fixed),
        bytes: serialize(&fields),
        root: th_root(w, &concat_roots(&fields), fields.len()),
    }
}

fn vector(w: bool, elems: Vec<Val>) -> Val {
    Val {
        fixed: elems.iter().all(|e| e.fixed),
        bytes: serialize(&elems),
        root: th_root(w, &concat_roots(&elems), elems.len()),
    }
}

fn list(w: bool, elems: Vec<Val>, limit: usize) -> Val {
    Val {
        fixed: false,
        bytes: serialize(&elems),
        root: th_mix(w, th_root(w, &concat_roots(&elems), limit), elems.len()),
    }
}

fn vector_u64(w: bool, vals: &[u64]) -> Val {
    let mut bytes = Vec::new();
    for v in vals {
        bytes.extend_from_slice(&v.to_le_bytes());
    }
    Val { fixed: true, root: th_root(w, &bytes, (bytes.len() + 31) / 32), bytes }
}

fn list_u64(w: bool, vals: &[u64], limit: usize) -> Val {
    let mut bytes = Vec::new();
    for v in vals {
        bytes.extend_from_slice(&v.to_le_bytes());
    }
    Val { fixed: false, root: th_mix(w, th_root(w, &bytes, limit / 4), vals.len()), bytes }
}

fn list_u8(w: bool, vals: &[u8], limit: usize) -> Val {
    Val { fixed: false, root: th_mix(w, th_root(w, vals, limit / 32), vals.len()), bytes: vals.to_vec() }
}

fn bitvector(w: bool, bits: &[bool]) -> Val {
    let mut bytes = vec![0u8; (bits.len() + 7) / 8];
    for (i, b) in bits.iter().enumerate() {
        if *b {
            bytes[i / 8] |= 1 << (i % 8);
        }
    }
    Val { fixed: true, root: th_root(w, &bytes, (bits.len() + 255) / 256), bytes }
}

fn bitlist(w: bool, bits: &[bool], limit: usize) -> Val {
    let mut data = vec![0u8; (bits.len() + 7) / 8];
    for (i, b) in bits.iter().enumerate() {
        if *b {
            data[i / 8] |= 1 << (i % 8);
        }
    }
    let mut bytes = vec![0u8; bits.len() / 8 + 1];
    bytes[..data.len()].copy_from_slice(&data);
    bytes[bits.len() / 8] |= 1 << (bits.len() % 8);
    Val { fixed: false, root: th_mix(w, th_root(w, &data, (limit + 255) / 256), bits.len()), bytes }
}

fn root32(w: bool, seed: u8) -> Val {
    byte_vector(w, pattern(32, seed))
}

fn checkpoint(w: bool, epoch: u64, seed: u8) -> Val {
    container(w, vec![uint64(w, epoch), root32(w, seed)])
}

fn eth1_data(w: bool, seed: u8) -> Val {
    container(w, vec![root32(w, seed), uint64(w, seed as u64 + 100), root32(w, seed.wrapping_add(1))])
}

fn validator(w: bool, seed: u8) -> Val {
    container(w, vec![
        byte_vector(w, pattern(48, seed)),
        root32(w, seed.wrapping_add(3)),
        uint64(w, 32_000_000_000),
        boolean(w, seed % 2 == 1),
        uint64(w, 1),
        uint64(w, 2),
        uint64(w, u64::MAX),
        uint64(w, u64::MAX),
    ])
}

fn pending_attestation(w: bool, seed: u8, bits: &[bool]) -> Val {
    container(w, vec![
        bitlist(w, bits, 2048),
        container(w, vec![
            uint64(w, seed as u64),
            uint64(w, 1),
            root32(w, seed),
            checkpoint(w, 2, seed.wrapping_add(1)),
            checkpoint(w, 3, seed.wrapping_add(2)),
        ]),
        uint64(w, 1),
        uint64(w, 7),
    ])
}

fn sync_committee(w: bool, seed: u8) -> Val {
    let keys: Vec<Val> =
        (0..512).map(|i| byte_vector(w, pattern(48, seed.wrapping_add(i as u8)))).collect();
    container(w, vec![vector(w, keys), byte_vector(w, pattern(48, seed.wrapping_add(200)))])
}

fn payload_header(w: bool, fork: ForkName, extra: &[u8]) -> Val {
    let mut fields = vec![
        root32(w, 1),
        byte_vector(w, pattern(20, 2)),
        root32(w, 3),
        root32(w, 4),
        byte_vector(w, pattern(256, 5)),
        root32(w, 6),
        uint64(w, 17_000_000),
        uint64(w, 30_000_000),
        uint64(w, 12_345_678),
        uint64(w, 1_686_000_000),
        list_u8(w, extra, 32),
        uint256(w, 25_000_000_000),
        root32(w, 7),
        root32(w, 8),
    ];
    if fork == ForkName::Capella || fork == ForkName::Deneb {
        fields.push(root32(w, 9));
    }
    if fork == ForkName::Deneb {
        fields.push(uint64(w, 131072));
        fields.push(uint64(w, 0));
    }
    container(w, fields)
}

fn state(w: bool, fork: ForkName, slot: u64, full: bool) -> Val {
    let count = if full { 3 } else { 0 };
    let roots_8192: Vec<Val> = (0..8192).map(|i| root32(w, i as u8)).collect();
    let mixes: Vec<Val> = (0..65536).map(|i| root32(w, (i / 7) as u8)).collect();
    let validators: Vec<Val> = (0..count).map(|i| validator(w, i as u8)).collect();
    let balances: Vec<u64> = (0..count).map(|i| 32_000_000_000 + i as u64).collect();
    let flags: Vec<u8> = (0..count).map(|i| (i % 8) as u8).collect();
    let mut fields = vec![
        uint64(w, 1_606_824_023),
        root32(w, 0x4b),
        uint64(w, slot),
        container(w, vec![byte_vector(w, vec![2, 0, 0, 0]), byte_vector(w, vec![3, 0, 0, 0]), uint64(w, 194048)]),
        container(w, vec![uint64(w, slot), uint64(w, 5), root32(w, 10), root32(w, 11), root32(w, 12)]),
        vector(w, roots_8192.clone()),
        vector(w, roots_8192),
        list(w, (0..count).map(|i| root32(w, i as u8 + 40)).collect(), 1 << 24),
        eth1_data(w, 20),
        list(w, (0..count).map(|i| eth1_data(w, i as u8 + 60)).collect(), 2048),
        uint64(w, 800_000),
        list(w, validators, 1 << 40),
        list_u64(w, &balances, 1 << 40),
        vector(w, mixes),
        vector_u64(w, &vec![0u64; 8192]),
    ];
    if fork == ForkName::Base {
        let attestations: Vec<Val> = (0..count)
            .map(|i| pending_attestation(w, i as u8, &vec![true; 3 + 5 * i]))
            .collect();
        fields.push(list(w, attestations.clone(), 4096));
        fields.push(list(w, attestations, 4096));
    } else {
        fields.push(list_u8(w, &flags, 1 << 40));
        fields.push(list_u8(w, &flags, 1 << 40));
    }
    fields.push(bitvector(w, &[true, true, false, true]));
    fields.push(checkpoint(w, 200_250, 30));
    fields.push(checkpoint(w, 200_251, 31));
    fields.push(checkpoint(w, 200_249, 32));
    if fork != ForkName::Base {
        fields.push(list_u64(w, &vec![0u64; count], 1 << 40));
        fields.push(sync_committee(w, 50));
        fields.push(sync_committee(w, 90));
    }
    if fork != ForkName::Base && fork != ForkName::Altair {
        fields.push(payload_header(w, fork, if full { b"hello" } else { b"" }));
    }
    if fork == ForkName::Capella || fork == ForkName::Deneb {
        fields.push(uint64(w, 11));
        fields.push(uint64(w, 12));
        fields.push(list(w, 
            (0..count).map(|i| container(w, vec![root32(w, i as u8), root32(w, i as u8 + 1)])).collect(),
            1 << 24,
        ));
    }
    container(w, fields)
}

fn state_bytes(fork: ForkName, slot: u64, full: bool) -> Vec<u8> {
    state(false, fork, slot, full).bytes
}

const FORKS: [ForkName; 5] =
    [ForkName::Base, ForkName::Altair, ForkName::Bellatrix, ForkName::Capella, ForkName::Deneb];

fn header_value(fork: ForkName) -> &'static str {
    match fork {
        ForkName::Base => "phase0",
        ForkName::Altair => "altair",
        ForkName::Bellatrix => "bellatrix",
        ForkName::Capella => "capella",
        ForkName::Deneb => "deneb",
    }
}

fn response(fork: ForkName, body: Vec<u8>) -> HttpResponse {
    HttpResponse { status: 200, consensus_version: Some(header_value(fork).to_string()), body }
}

#[test]
fn fixed_parts_have_the_lengths_of_the_protocol() {
    assert_eq!(state_bytes(ForkName::Base, 0, false).len(), 2687377);
    assert_eq!(state_bytes(ForkName::Altair, 0, false).len(), 2736629);
    assert_eq!(state_bytes(ForkName::Bellatrix, 0, false).len(), 2736633 + 536);
    assert_eq!(state_bytes(ForkName::Capella, 0, false).len(), 2736653 + 568);
    assert_eq!(state_bytes(ForkName::Deneb, 0, false).len(), 2736653 + 584);
}

fn check_root(fork: ForkName, full: bool) {
    let value = state(true, fork, 6_408_035, full);
    let decoded = BeaconState::from_fork_ssz_bytes(&value.bytes, fork).ok().unwrap();
    assert_eq!(decoded.fork_name(), fork);
    assert_eq!(decoded.slot(), 6_408_035);
    assert_eq!(decoded.as_ssz_bytes(), &value.bytes[..]);
    assert_eq!(decoded.tree_hash_root(), value.root);
}

#[test]
fn base_state_hashes_to_the_independent_root() {
    check_root(ForkName::Base, true);
}

#[test]
fn altair_state_hashes_to_the_independent_root() {
    check_root(ForkName::Altair, true);
}

#[test]
fn bellatrix_state_hashes_to_the_independent_root() {
    check_root(ForkName::Bellatrix, true);
}

#[test]
fn capella_state_hashes_to_the_independent_root() {
    check_root(ForkName::Capella, true);
}

#[test]
fn deneb_state_hashes_to_the_independent_root() {
    check_root(ForkName::Deneb, true);
}

#[test]
fn state_with_empty_lists_hashes_to_the_independent_root() {
    check_root(ForkName::Base, false);
    check_root(ForkName::Deneb, false);
}

#[test]
fn bytes_of_one_fork_do_not_decode_under_another() {
    for full in [false, true] {
        for a in FORKS {
            let bytes = state_bytes(a, 77, full);
            for b in FORKS {
                let decoded = BeaconState::from_fork_ssz_bytes(&bytes, b);
                if a == b {
                    assert!(decoded.is_ok());
                } else {
                    assert_eq!(decoded.err(), Some(Error::SszError));
                }
            }
        }
    }
}

#[test]
fn damaged_bytes_are_refused() {
    let bytes = state_bytes(ForkName::Capella, 5, true);
    let decode = |bytes: &[u8]| BeaconState::from_fork_ssz_bytes(bytes, ForkName::Capella);
    assert!(decode(&bytes).is_ok());
    assert_eq!(decode(&[]).err(), Some(Error::SszError));
    assert_eq!(decode(&bytes[..bytes.len() - 1]).err(), Some(Error::SszError));
    assert_eq!(decode(&bytes[..2736653]).err(), Some(Error::SszError));
    assert_eq!(decode(&bytes[..1000]).err(), Some(Error::SszError));
    let mut longer = bytes.clone();
    longer.push(0);
    assert_eq!(decode(&longer).err(), Some(Error::SszError));
    // The offset of the validators points beyond the end.
    let mut beyond = bytes.clone();
    beyond[524552..524556].copy_from_slice(&u32::MAX.to_le_bytes());
    assert_eq!(decode(&beyond).err(), Some(Error::SszError));
    // The first offset points into the fixed part.
    let mut inside = bytes.clone();
    inside[524464..524468].copy_from_slice(&100u32.to_le_bytes());
    assert_eq!(decode(&inside).err(), Some(Error::SszError));
    // Offsets that go backwards.
    let mut backwards = bytes.clone();
    let first = u32::from_le_bytes(bytes[524464..524468].try_into().unwrap());
    backwards[524540..524544].copy_from_slice(&(first - 1).to_le_bytes());
    assert_eq!(decode(&backwards).err(), Some(Error::SszError));
    // A validator whose `slashed` is neither 0 nor 1.
    let validators = u32::from_le_bytes(bytes[524552..524556].try_into().unwrap()) as usize;
    let mut slashed = bytes.clone();
    slashed[validators + 88] = 2;
    assert_eq!(decode(&slashed).err(), Some(Error::SszError));
    // Justification bits beyond the fourth.
    let mut bits = bytes.clone();
    bits[2687256] = 0x10;
    assert_eq!(decode(&bits).err(), Some(Error::SszError));
    // More extra data than the header allows.
    let long_header = payload_header(false, ForkName::Capella, &[7u8; 33]).bytes;
    let short_header = payload_header(false, ForkName::Capella, &[7u8; 32]).bytes;
    let empty = state_bytes(ForkName::Capella, 5, false);
    let with_header = |header: &[u8]| {
        let mut out = empty[..2736653].to_vec();
        let end = (2736653 + header.len()) as u32;
        out[2736649..2736653].copy_from_slice(&end.to_le_bytes());
        out.extend_from_slice(header);
        out
    };
    assert!(decode(&with_header(&short_header)).is_ok());
    assert_eq!(decode(&with_header(&long_header)).err(), Some(Error::SszError));
}

fn check_audit_paths(fork: ForkName, indices: &[usize]) {
    let bytes = state_bytes(fork, 9, true);
    let decoded = BeaconState::from_fork_ssz_bytes(&bytes, fork).ok().unwrap();
    let leaves = decoded.field_roots();
    let root = decoded.tree_hash_root();
    let fields = leaves.len();
    for g in indices {
        let g = *g;
        let path = decoded.compute_merkle_proof(g);
        if g >= 32 && g - 32 >= fields {
            assert_eq!(path.err(), Some(BeaconStateError::IncorrectStateVariant));
            continue;
        }
        let path = path.ok().unwrap();
        if g >= 32 {
            assert_eq!(path.len(), 5);
            assert!(verify_merkle_proof(&leaves[g - 32], &path, g, &root));
            assert!(!verify_merkle_proof(&leaves[g - 32], &path, g ^ 1, &root));
        }
    }
}

#[test]
fn audit_paths_of_a_base_state_fold_to_its_root() {
    check_audit_paths(ForkName::Base, &[3, 32, 47, 52, 55, 63]);
}

#[test]
fn audit_paths_of_a_capella_state_fold_to_its_root() {
    check_audit_paths(ForkName::Capella, &[13, 54, 59, 60]);
}

#[test]
fn root_and_proof_gives_what_folds_to_the_root() {
    let value = state(true, ForkName::Deneb, 9, true);
    let decoded = BeaconState::from_fork_ssz_bytes(&value.bytes, ForkName::Deneb).ok().unwrap();
    for g in [1usize, 2, 7, 27, 55] {
        let (root, path, node) = decoded.root_and_proof(g).ok().unwrap();
        assert_eq!(root, value.root);
        assert!(verify_merkle_proof(&node, &path, g, &root));
        if g == 1 {
            assert_eq!(node, root);
            assert!(path.is_empty());
        }
        if g == 55 {
            assert_eq!(node, sync_committee(true, 90).root);
            assert_eq!(path, decoded.compute_merkle_proof(55).ok().unwrap());
        }
    }
    assert_eq!(decoded.root_and_proof(0).err(), Some(BeaconStateError::IndexNotSupported(0)));
    assert_eq!(decoded.root_and_proof(64).err(), Some(BeaconStateError::IndexNotSupported(64)));
    assert_eq!(decoded.root_and_proof(60).err(), Some(BeaconStateError::IncorrectStateVariant));
}

#[test]
fn audit_path_of_the_root_is_empty() {
    let bytes = state_bytes(ForkName::Altair, 9, false);
    let decoded = BeaconState::from_fork_ssz_bytes(&bytes, ForkName::Altair).ok().unwrap();
    assert!(decoded.compute_merkle_proof(1).ok().unwrap().is_empty());
}

#[test]
fn index_outside_the_tree_is_refused() {
    let bytes = state_bytes(ForkName::Altair, 9, false);
    let decoded = BeaconState::from_fork_ssz_bytes(&bytes, ForkName::Altair).ok().unwrap();
    assert_eq!(
        decoded.compute_merkle_proof(0).err(),
        Some(BeaconStateError::IndexNotSupported(0))
    );
    for g in [64usize, 65, 105, 127, 128, 1 << 20, usize::MAX] {
        assert_eq!(
            decoded.compute_merkle_proof(g).err(),
            Some(BeaconStateError::IndexNotSupported(g))
        );
    }
    // Altair has 24 fields: the leaves from 32 + 24 on stand for no field.
    assert!(decoded.compute_merkle_proof(55).is_ok());
    for g in 56usize..64 {
        assert_eq!(
            decoded.compute_merkle_proof(g).err(),
            Some(BeaconStateError::IncorrectStateVariant)
        );
    }
}

#[test]
fn proof_is_the_same_each_time() {
    let bytes = state_bytes(ForkName::Deneb, 9, true);
    let one = BeaconState::from_fork_ssz_bytes(&bytes, ForkName::Deneb).ok().unwrap();
    let two = BeaconState::from_fork_ssz_bytes(&bytes.clone(), ForkName::Deneb).ok().unwrap();
    let first = one.compute_merkle_proof(55).ok().unwrap();
    assert_eq!(first, two.compute_merkle_proof(55).ok().unwrap());
    assert_eq!(first, one.compute_merkle_proof(55).ok().unwrap());
    assert_eq!(
        one.next_sync_committee().ok().unwrap().tree_hash_root(),
        two.next_sync_committee().ok().unwrap().tree_hash_root()
    );
}

#[test]
fn sync_committee_of_a_state() {
    let bytes = state_bytes(ForkName::Bellatrix, 9, true);
    let decoded = BeaconState::from_fork_ssz_bytes(&bytes, ForkName::Bellatrix).ok().unwrap();
    let committee = decoded.next_sync_committee().ok().unwrap();
    let expected = sync_committee(true, 90);
    assert_eq!(committee.as_ssz_bytes(), &expected.bytes[..]);
    assert_eq!(committee.tree_hash_root(), expected.root);
    assert_eq!(committee.tree_hash_root(), decoded.field_roots()[23]);
    assert_eq!(committee.pubkey(0).unwrap().to_vec(), pattern(48, 90));
    assert_eq!(committee.pubkey(511).unwrap().to_vec(), pattern(48, 90u8.wrapping_add(255)));
    assert!(committee.pubkey(512).is_none());
    assert_eq!(committee.aggregate_pubkey().to_vec(), pattern(48, 90u8.wrapping_add(200)));
    assert_eq!(decoded.field(22).unwrap(), &sync_committee(true, 50).bytes[..]);
    assert!(decoded.field(25).is_none());
    let again = SyncCommittee::from_ssz_bytes(&expected.bytes).ok().unwrap();
    assert_eq!(again.tree_hash_root(), expected.root);
    assert_eq!(
        SyncCommittee::from_ssz_bytes(&expected.bytes[1..]).err(),
        Some(Error::SszError)
    );
}

#[test]
fn base_state_has_no_sync_committee() {
    let bytes = state_bytes(ForkName::Base, 9, false);
    let decoded = BeaconState::from_fork_ssz_bytes(&bytes, ForkName::Base).ok().unwrap();
    assert_eq!(
        decoded.next_sync_committee().err(),
        Some(BeaconStateError::IncorrectStateVariant)
    );
    assert_eq!(
        decoded.compute_merkle_proof(55).err(),
        Some(BeaconStateError::IncorrectStateVariant)
    );
    let fetcher = StateProofFetcher::new("http://127.0.0.1:5052".to_string());
    let record = fetcher.fetch_next_sync_committee_proof(&response(ForkName::Base, bytes), 9);
    assert_eq!(
        record.err(),
        Some(Error::BeaconStateError(BeaconStateError::IncorrectStateVariant))
    );
}

#[test]
fn next_sync_committee_proof_of_a_mainnet_state() {
    let slot = 6_408_035;
    let value = state(true, ForkName::Capella, slot, true);
    let fetcher = StateProofFetcher::new("http://127.0.0.1:5052".to_string());
    assert_eq!(fetcher.rpc_endpoint(), "http://127.0.0.1:5052");
    let answer = response(ForkName::Capella, value.bytes.clone());
    let record = fetcher.fetch_next_sync_committee_proof(&answer, slot).ok().unwrap();
    assert_eq!(record.index, 55);
    assert_eq!(record.index, NEXT_SYNC_COMMITTEE_INDEX);
    assert_eq!(record.slot, slot);
    assert_eq!(record.leaf, record.next_sync_committee.tree_hash_root());
    assert_eq!(record.leaf, sync_committee(true, 90).root);
    assert_eq!(record.proof.len(), 5);
    assert!(verify_merkle_proof(&record.leaf, &record.proof, 55, &value.root));
    assert_eq!(fetcher.fetch_state_proof(&answer, 55).ok().unwrap(), record.proof);
    let decoded = fetch_beacon_state(&answer).ok().unwrap();
    assert_eq!(decoded.slot(), slot);
    // The sibling of leaf 55 is leaf 54, the current sync committee.
    assert_eq!(record.proof[0], sync_committee(true, 50).root);
}

#[test]
fn state_proof_reports_what_went_wrong() {
    let bytes = state_bytes(ForkName::Altair, 3, false);
    let fetcher = StateProofFetcher::new(String::new());
    let good = response(ForkName::Altair, bytes.clone());
    assert_eq!(
        fetcher.fetch_state_proof(&good, 0).err(),
        Some(Error::BeaconStateError(BeaconStateError::IndexNotSupported(0)))
    );
    assert_eq!(
        fetcher.fetch_state_proof(&good, 64).err(),
        Some(Error::BeaconStateError(BeaconStateError::IndexNotSupported(64)))
    );
    assert_eq!(
        fetcher.fetch_state_proof(&good, 60).err(),
        Some(Error::BeaconStateError(BeaconStateError::IncorrectStateVariant))
    );
    let wrong_fork = response(ForkName::Capella, bytes.clone());
    assert_eq!(fetcher.fetch_state_proof(&wrong_fork, 55).err(), Some(Error::SszError));
    assert_eq!(
        fetcher.fetch_next_sync_committee_proof(&wrong_fork, 3).err(),
        Some(Error::SszError)
    );
}
