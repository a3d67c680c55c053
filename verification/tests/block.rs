use beacon_state_proof::beacon_block::BeaconBlock;
use beacon_state_proof::error::Error;
use beacon_state_proof::fork_name::ForkName;
use beacon_state_proof::hash::Hash256;
use beacon_state_proof::rpc::{fetch_beacon_block, HttpResponse};

/// A part of a block with its serialization and its hash tree root, the root
/// computed with the `tree_hash` crate alone.
#[derive(Clone)]
struct Part {
    fixed: bool,
    bytes: Vec<u8>,
    root: Hash256,
}

fn root_of(bytes: &[u8], leaves: usize) -> Hash256 {
    tree_hash::merkle_root(bytes, leaves).0
}

fn with_length(root: Hash256, len: usize) -> Hash256 {
    tree_hash::mix_in_length(&tree_hash::Hash256::from_slice(&root), len).0
}

fn number(v: u64) -> Part {
    let bytes = v.to_le_bytes().to_vec();
    Part { fixed: true, root: root_of(&bytes, 1), bytes }
}

fn number256(low: u64) -> Part {
    let mut bytes = vec![0u8; 32];
    bytes[..8].copy_from_slice(&low.to_le_bytes());
    Part { fixed: true, root: root_of(&bytes, 1), bytes }
}

fn filled(len: usize, seed: u8) -> Part {
    let bytes: Vec<u8> = (0..len).map(|i| (i as u8).wrapping_mul(13).wrapping_add(seed)).collect();
    Part { fixed: true, root: root_of(&bytes, (len + 31) / 32), bytes }
}

fn join_roots(parts: &[Part]) -> Vec<u8> {
    let mut roots = Vec::new();
    for p in parts {
        roots.extend_from_slice(&p.root);
    }
    roots
}

fn join_bytes(parts: &[Part]) -> Vec<u8> {
    let fixed_len: usize = parts.iter().map(|p| if p.fixed { p.bytes.len() } else { 4 }).sum();
    let mut out = Vec::new();
    let mut cursor = fixed_len;
    for p in parts {
        if p.fixed {
            out.extend_from_slice(&p.bytes);
        } else {
            out.extend_from_slice(&(cursor as u32).to_le_bytes());
            cursor += p.bytes.len();
        }
    }
    for p in parts {
        if !p.fixed {
            out.extend_from_slice(&p.bytes);
        }
    }
    out
}

fn record(fields: Vec<Part>) -> Part {
    Part {
        fixed: fields.iter().all(|f| f.fixed),
        bytes: join_bytes(&fields),
        root: root_of(&join_roots(&fields), fields.len()),
    }
}

fn array(elems: Vec<Part>) -> Part {
    Part { fixed: true, bytes: join_bytes(&elems), root: root_of(&join_roots(&elems), elems.len()) }
}

fn sequence(elems: Vec<Part>, limit: usize) -> Part {
    Part {
        fixed: false,
        bytes: join_bytes(&elems),
        root: with_length(root_of(&join_roots(&elems), limit), elems.len()),
    }
}

fn numbers(vals: &[u64], limit: usize) -> Part {
    let mut bytes = Vec::new();
    for v in vals {
        bytes.extend_from_slice(&v.to_le_bytes());
    }
    Part { fixed: false, root: with_length(root_of(&bytes, limit / 4), vals.len()), bytes }
}

fn byte_string(vals: &[u8], limit: usize) -> Part {
    Part {
        fixed: false,
        root: with_length(root_of(vals, limit / 32), vals.len()),
        bytes: vals.to_vec(),
    }
}

fn bits(len: usize, limit: usize) -> Part {
    let mut data = vec![0u8; (len + 7) / 8];
    for i in 0..len {
        if i % 3 != 1 {
            data[i / 8] |= 1 << (i % 8);
        }
    }
    let mut bytes = vec![0u8; len / 8 + 1];
    bytes[..data.len()].copy_from_slice(&data);
    bytes[len / 8] |= 1 << (len % 8);
    Part { fixed: false, root: with_length(root_of(&data, (limit + 255) / 256), len), bytes }
}

fn fixed_bits(bytes: Vec<u8>, count: usize) -> Part {
    Part { fixed: true, root: root_of(&bytes, (count + 255) / 256), bytes }
}

fn mark(epoch: u64, seed: u8) -> Part {
    record(vec![number(epoch), filled(32, seed)])
}

fn vote_data(seed: u8) -> Part {
    record(vec![number(seed as u64), number(2), filled(32, seed), mark(4, 1), mark(5, 2)])
}

fn signed_header(seed: u8) -> Part {
    record(vec![
        record(vec![number(9), number(4), filled(32, seed), filled(32, 1), filled(32, 2)]),
        filled(96, seed),
    ])
}

fn indexed(seed: u8, indices: &[u64]) -> Part {
    record(vec![numbers(indices, 2048), vote_data(seed), filled(96, seed)])
}

fn payload(fork: ForkName) -> Part {
    let mut fields = vec![
        filled(32, 1),
        filled(20, 2),
        filled(32, 3),
        filled(32, 4),
        filled(256, 5),
        filled(32, 6),
        number(17_000_000),
        number(30_000_000),
        number(12_345_678),
        number(1_686_000_000),
        byte_string(b"extra", 32),
        number256(25_000_000_000),
        filled(32, 7),
        sequence(
            vec![
                byte_string(&[1, 2, 3], 1 << 30),
                byte_string(&[], 1 << 30),
                byte_string(&[9u8; 70], 1 << 30),
            ],
            1 << 20,
        ),
    ];
    if fork == ForkName::Capella || fork == ForkName::Deneb {
        fields.push(sequence(
            vec![record(vec![number(1), number(2), filled(20, 3), number(4)])],
            16,
        ));
    }
    if fork == ForkName::Deneb {
        fields.push(number(131072));
        fields.push(number(1));
    }
    record(fields)
}

fn block(fork: ForkName, slot: u64) -> Part {
    let mut body = vec![
        filled(96, 1),
        record(vec![filled(32, 2), number(3), filled(32, 4)]),
        filled(32, 5),
        sequence(vec![record(vec![signed_header(1), signed_header(2)])], 16),
        sequence(vec![record(vec![indexed(1, &[1, 2, 3]), indexed(2, &[])])], 2),
        sequence(
            vec![
                record(vec![bits(5, 2048), vote_data(6), filled(96, 7)]),
                record(vec![bits(64, 2048), vote_data(8), filled(96, 9)]),
            ],
            128,
        ),
        sequence(
            vec![record(vec![
                array((0..33).map(|i| filled(32, i as u8)).collect()),
                record(vec![filled(48, 1), filled(32, 2), number(32_000_000_000), filled(96, 3)]),
            ])],
            16,
        ),
        sequence(vec![record(vec![record(vec![number(7), number(8)]), filled(96, 9)])], 16),
    ];
    if fork != ForkName::Base {
        body.push(record(vec![fixed_bits(vec![0xA7; 64], 512), filled(96, 10)]));
    }
    if fork != ForkName::Base && fork != ForkName::Altair {
        body.push(payload(fork));
    }
    if fork == ForkName::Capella || fork == ForkName::Deneb {
        body.push(sequence(
            vec![record(vec![
                record(vec![number(5), filled(48, 6), filled(20, 7)]),
                filled(96, 8),
            ])],
            16,
        ));
    }
    if fork == ForkName::Deneb {
        body.push(sequence(vec![filled(48, 1), filled(48, 2)], 4096));
    }
    record(vec![number(slot), number(321), filled(32, 11), filled(32, 12), record(body)])
}

const ALL_FORKS: [ForkName; 5] =
    [ForkName::Base, ForkName::Altair, ForkName::Bellatrix, ForkName::Capella, ForkName::Deneb];

#[test]
fn block_of_each_fork_decodes_and_hashes_to_the_independent_root() {
    for fork in ALL_FORKS {
        let value = block(fork, 6_408_035);
        let decoded = BeaconBlock::from_ssz_bytes_for_fork(&value.bytes, fork).ok().unwrap();
        assert_eq!(decoded.fork_name(), fork);
        assert_eq!(decoded.slot(), 6_408_035);
        assert_eq!(decoded.proposer_index(), 321);
        assert_eq!(decoded.parent_root().to_vec(), filled(32, 11).bytes);
        assert_eq!(decoded.state_root().to_vec(), filled(32, 12).bytes);
        assert_eq!(decoded.as_ssz_bytes(), &value.bytes[..]);
        assert_eq!(decoded.tree_hash_root(), value.root);
    }
}

#[test]
fn block_of_one_fork_does_not_decode_under_another() {
    for a in ALL_FORKS {
        let value = block(a, 5);
        for b in ALL_FORKS {
            let decoded = BeaconBlock::from_ssz_bytes_for_fork(&value.bytes, b);
            if a == b {
                assert!(decoded.is_ok());
            } else {
                assert_eq!(decoded.err(), Some(Error::SszError));
            }
        }
    }
}

#[test]
fn damaged_block_is_refused() {
    let value = block(ForkName::Deneb, 5);
    let decode = |bytes: &[u8]| BeaconBlock::from_ssz_bytes_for_fork(bytes, ForkName::Deneb);
    assert!(decode(&value.bytes).is_ok());
    assert_eq!(decode(&[]).err(), Some(Error::SszError));
    assert_eq!(decode(&value.bytes[..83]).err(), Some(Error::SszError));
    assert_eq!(decode(&value.bytes[..84]).err(), Some(Error::SszError));
    assert_eq!(decode(&value.bytes[..value.bytes.len() - 1]).err(), Some(Error::SszError));
    let mut offset = value.bytes.clone();
    offset[80] = 85;
    assert_eq!(decode(&offset).err(), Some(Error::SszError));
}

#[test]
fn block_in_a_response() {
    let value = block(ForkName::Capella, 77);
    let answer = |status: u16, header: Option<&str>| HttpResponse {
        status,
        consensus_version: header.map(|h| h.to_string()),
        body: value.bytes.clone(),
    };
    let decoded = fetch_beacon_block(&answer(200, Some("capella"))).ok().unwrap();
    assert_eq!(decoded.slot(), 77);
    assert_eq!(decoded.tree_hash_root(), value.root);
    assert_eq!(
        fetch_beacon_block(&answer(200, None)).err(),
        Some(Error::MissingConsensusVersion)
    );
    assert_eq!(
        fetch_beacon_block(&answer(503, None)).err(),
        Some(Error::MissingConsensusVersion)
    );
    assert_eq!(
        fetch_beacon_block(&answer(200, Some("Capellla"))).err(),
        Some(Error::InvalidConsensusVersion)
    );
    assert_eq!(fetch_beacon_block(&answer(404, Some("capella"))).err(), Some(Error::HttpStatus(404)));
    assert_eq!(fetch_beacon_block(&answer(200, Some("deneb"))).err(), Some(Error::SszError));
}
