//! The hash tree root of a serialized value.

use vstd::prelude::*;
use vstd::slice::slice_subrange;
use vstd::arithmetic::power2::lemma2_to64;
use crate::decode::{
    elem_bytes, elem_count, elem_range, elems_laid_out, elems_valid, field_bytes, field_range,
    lemma_elem_end_bounded, lemma_elems_laid_out, lemma_field_end_bounded,
    seq_header, valid,
};
use crate::hash::{hash_nodes, hash_pair, zero_node, Hash256};
use crate::merkle::{
    gindex_level, gindex_level_of, lemma_tree_depth_fits, lemma_tree_depth_least,
    lemma_two_pow_is_pow2, merkle_root, merkleize, nodes_view, tree_depth, two_pow, ZeroHashes,
    MAX_DEPTH,
};
use crate::schema::{
    fixed_len, lemma_fixed_len_bounds, len_view, parts_of, well_formed, SszType, TypeSpec,
};

verus! {

/// The bytes of `b` in nodes of 32, the last one filled up with zeros.
pub open spec fn pack(b: Seq<u8>) -> Seq<Seq<u8>> {
    Seq::new(
        (b.len() + 31) / 32,
        |i: int|
            Seq::new(
                32,
                |j: int|
                    if 32 * i + j < b.len() {
                        b[32 * i + j]
                    } else {
                        0u8
                    },
            ),
    )
}

/// Byte `j` of the little-endian form of `n`.
pub open spec fn le_byte(n: nat, j: nat) -> nat
    decreases j,
{
    if j == 0 {
        n % 256
    } else {
        le_byte(n / 256, (j - 1) as nat)
    }
}

/// The node that holds a length: its eight little-endian bytes, then zeros.
pub open spec fn length_chunk(n: nat) -> Seq<u8> {
    Seq::new(
        32,
        |j: int|
            if j < 8 {
                le_byte(n, j as nat) as u8
            } else {
                0u8
            },
    )
}

/// The root of a list: the root of its elements hashed with their number.
pub open spec fn mix_in_length(root: Seq<u8>, n: nat) -> Seq<u8> {
    hash_pair(root, length_chunk(n))
}

/// The number of bits of a serialized bit list: those below its closing bit.
pub open spec fn bitlist_len(b: Seq<u8>) -> nat {
    (8 * (b.len() - 1) + gindex_level(b.last() as nat)) as nat
}

/// The bytes of a serialized bit list without its closing bit.
pub open spec fn bitlist_data(b: Seq<u8>) -> Seq<u8> {
    let top = gindex_level(b.last() as nat);
    if top == 0 {
        b.drop_last()
    } else {
        b.drop_last().push((b.last() - two_pow(top)) as u8)
    }
}

/// The number of nodes that `count` basic values of `width` bytes fill.
pub open spec fn chunk_count(width: nat, count: nat) -> nat {
    (width * count + 31) / 32
}

/// The hash tree root of the value of type `t` that `b` serializes.
pub open spec fn hash_tree_root(t: TypeSpec, b: Seq<u8>) -> Seq<u8>
    decreases t, 0nat, 0nat,
{
    match t {
        TypeSpec::Uint(_) => merkle_root(pack(b), 0),
        TypeSpec::Boolean => merkle_root(pack(b), 0),
        TypeSpec::Bitvector(bits) => merkle_root(
            pack(b),
            tree_depth(chunk_count(1, (bits + 7) / 8)),
        ),
        TypeSpec::Bitlist(limit) => mix_in_length(
            merkle_root(pack(bitlist_data(b)), tree_depth(chunk_count(1, (limit + 7) / 8))),
            bitlist_len(b),
        ),
        TypeSpec::Vector(elem, count) => elems_root(*elem, b, count),
        TypeSpec::List(elem, limit) => mix_in_length(
            elems_root(*elem, b, limit),
            elem_count(fixed_len(*elem), b),
        ),
        TypeSpec::Container(fields) => merkle_root(
            field_roots(fields, b, fields.len()),
            tree_depth(fields.len()),
        ),
    }
}

/// The root of the elements that `b` holds, in a tree with room for `capacity`
/// of them: basic values packed into nodes, others by their own roots.
pub open spec fn elems_root(elem: TypeSpec, b: Seq<u8>, capacity: nat) -> Seq<u8>
    decreases elem, 2nat, 0nat,
{
    match elem {
        TypeSpec::Uint(width) => merkle_root(pack(b), tree_depth(chunk_count(width, capacity))),
        TypeSpec::Boolean => merkle_root(pack(b), tree_depth(chunk_count(1, capacity))),
        _ => merkle_root(
            elem_roots(elem, b, elem_count(fixed_len(elem), b)),
            tree_depth(capacity),
        ),
    }
}

/// The roots of the first `n` elements.
pub open spec fn elem_roots(elem: TypeSpec, b: Seq<u8>, n: nat) -> Seq<Seq<u8>>
    decreases elem, 1nat, n,
{
    if n == 0 {
        Seq::empty()
    } else {
        elem_roots(elem, b, (n - 1) as nat).push(
            hash_tree_root(elem, elem_bytes(fixed_len(elem), b, n - 1)),
        )
    }
}

/// The roots of the first `n` fields of a container.
pub open spec fn field_roots(fields: Seq<TypeSpec>, b: Seq<u8>, n: nat) -> Seq<Seq<u8>>
    decreases fields, 1nat, n,
{
    if n == 0 || n > fields.len() {
        Seq::empty()
    } else {
        field_roots(fields, b, (n - 1) as nat).push(
            hash_tree_root(fields[n - 1], field_bytes(fields, b, n - 1)),
        )
    }
}

/// There is one root for each element.
pub proof fn lemma_elem_roots_len(elem: TypeSpec, b: Seq<u8>, n: nat)
    ensures
        elem_roots(elem, b, n).len() == n,
    decreases n,
{
    if n > 0 {
        lemma_elem_roots_len(elem, b, (n - 1) as nat);
    }
}

/// There is one root for each field.
pub proof fn lemma_field_roots_len(fields: Seq<TypeSpec>, b: Seq<u8>, n: nat)
    requires
        n <= fields.len(),
    ensures
        field_roots(fields, b, n).len() == n,
    decreases n,
{
    if n > 0 {
        lemma_field_roots_len(fields, b, (n - 1) as nat);
    }
}

/// Leaf `k` of a container is the hash tree root of its field `k`.
pub proof fn lemma_field_roots_index(fields: Seq<TypeSpec>, b: Seq<u8>, n: nat, k: int)
    requires
        0 <= k < n <= fields.len(),
    ensures
        field_roots(fields, b, n)[k] == hash_tree_root(fields[k], field_bytes(fields, b, k)),
    decreases n,
{
    lemma_field_roots_len(fields, b, (n - 1) as nat);
    if k < n - 1 {
        lemma_field_roots_index(fields, b, (n - 1) as nat, k);
    }
}

/// No tree over a number of leaves that fits 64 bits is deeper than `MAX_DEPTH`.
pub proof fn lemma_tree_depth_max(n: nat)
    requires
        n <= u64::MAX,
    ensures
        tree_depth(n) <= MAX_DEPTH,
{
    lemma_two_pow_is_pow2(64);
    lemma2_to64();
    lemma_tree_depth_least(n, 64);
}

/// The smallest depth of a tree with room for `n` leaves.
pub fn depth_for(n: u64) -> (depth: usize)
    ensures
        depth == tree_depth(n as nat),
        depth <= MAX_DEPTH,
        n <= two_pow(depth as nat),
{
    proof {
        lemma_tree_depth_max(n as nat);
        lemma_tree_depth_fits(n as nat);
    }
    let mut rest = n;
    let mut depth: usize = 0;
    while rest > 1
        invariant
            depth + tree_depth(rest as nat) == tree_depth(n as nat),
            tree_depth(n as nat) <= MAX_DEPTH,
        decreases rest,
    {
        rest = rest / 2 + rest % 2;
        depth += 1;
    }
    depth
}

/// The bytes of `b` in nodes of 32, the last one filled up with zeros.
pub fn pack_bytes(b: &[u8]) -> (nodes: Vec<Hash256>)
    ensures
        nodes_view(nodes@) == pack(b@),
{
    let total = b.len();
    let count = total / 32 + if total % 32 == 0 {
        0
    } else {
        1
    };
    let mut nodes: Vec<Hash256> = Vec::with_capacity(count);
    let mut i: usize = 0;
    while i < count
        invariant
            i <= count,
            total == b@.len(),
            count == (total + 31) / 32,
            nodes.len() == i,
            forall|k: int| 0 <= k < i ==> (#[trigger] nodes[k])@ == pack(b@)[k],
        decreases count - i,
    {
        let mut node: Hash256 = zero_node();
        let base = 32 * i;
        let mut j: usize = 0;
        while j < 32 && base + j < total
            invariant
                j <= 32,
                base == 32 * i,
                base + j <= total,
                total == b@.len(),
                forall|m: int| 0 <= m < j ==> node@[m] == b@[base + m],
                forall|m: int| j <= m < 32 ==> node@[m] == 0u8,
            decreases 32 - j,
        {
            node[j] = b[base + j];
            j += 1;
        }
        assert(node@ =~= pack(b@)[i as int]);
        nodes.push(node);
        i += 1;
    }
    assert(nodes_view(nodes@) =~= pack(b@));
    nodes
}

/// The node that holds a length.
pub fn length_node(n: u64) -> (node: Hash256)
    ensures
        node@ == length_chunk(n as nat),
{
    let mut node: Hash256 = zero_node();
    let n1 = n / 256;
    let n2 = n1 / 256;
    let n3 = n2 / 256;
    let n4 = n3 / 256;
    let n5 = n4 / 256;
    let n6 = n5 / 256;
    let n7 = n6 / 256;
    node[0] = (n % 256) as u8;
    node[1] = (n1 % 256) as u8;
    node[2] = (n2 % 256) as u8;
    node[3] = (n3 % 256) as u8;
    node[4] = (n4 % 256) as u8;
    node[5] = (n5 % 256) as u8;
    node[6] = (n6 % 256) as u8;
    node[7] = (n7 % 256) as u8;
    proof {
        reveal_with_fuel(le_byte, 9);
        assert(node@ =~= length_chunk(n as nat));
    }
    node
}

/// Hashes the root of the elements of a list with their number.
pub fn mix_in_length_node(root: &Hash256, n: u64) -> (mixed: Hash256)
    ensures
        mixed@ == mix_in_length(root@, n as nat),
{
    let len = length_node(n);
    hash_nodes(root, &len)
}



/// The root of the bytes of `b`, packed into nodes, in a tree with room for
/// `capacity` nodes.
pub fn packed_root(b: &[u8], capacity: u64, zeros: &ZeroHashes) -> (root: Hash256)
    requires
        (b@.len() + 31) / 32 <= capacity,
    ensures
        root@ == merkle_root(pack(b@), tree_depth(capacity as nat)),
{
    let nodes = pack_bytes(b);
    let depth = depth_for(capacity);
    assert(nodes@.len() == nodes_view(nodes@).len());
    merkleize(nodes, depth, zeros)
}

/// The number of nodes that `count` basic values of `width` bytes fill.
fn chunk_capacity(width: u64, count: u64) -> (chunks: u64)
    requires
        1 <= width <= 32,
    ensures
        chunks == chunk_count(width as nat, count as nat),
{
    assert(width * count <= 32 * count) by (nonlinear_arith)
        requires
            width <= 32,
            count >= 0,
    ;
    (((width as u128) * (count as u128) + 31) / 32) as u64
}

/// The bytes of a serialized bit list without its closing bit.
fn bitlist_bytes(b: &[u8]) -> (data: Vec<u8>)
    requires
        b@.len() >= 1,
        b@.last() >= 1,
    ensures
        data@ == bitlist_data(b@),
{
    let total = b.len();
    let mut data: Vec<u8> = Vec::with_capacity(total);
    let mut i: usize = 0;
    while i < total - 1
        invariant
            total == b@.len(),
            total >= 1,
            i <= total - 1,
            data@ == b@.take(i as int),
        decreases total - i,
    {
        data.push(b[i]);
        assert(b@.take(i as int).push(b@[i as int]) =~= b@.take(i + 1));
        i += 1;
    }
    assert(b@.take(total - 1) =~= b@.drop_last());
    let last = b[total - 1];
    let (top, weight) = gindex_level_of(last as usize);
    if top != 0 {
        data.push(last - weight as u8);
    }
    data
}

impl SszType {
    /// The hash tree root of the value of this type that `b` serializes.
    pub fn hash_tree_root(&self, b: &[u8], zeros: &ZeroHashes) -> (root: Hash256)
        requires
            well_formed(self@),
            valid(self@, b@),
        ensures
            root@ == hash_tree_root(self@, b@),
        decreases self, 0nat, 0nat,
    {
        let total = b.len();
        match self {
            SszType::Uint(_) => {
                assert(tree_depth(1) == 0);
                packed_root(b, 1, zeros)
            },
            SszType::Boolean => {
                assert(tree_depth(1) == 0);
                packed_root(b, 1, zeros)
            },
            SszType::Bitvector(_) => packed_root(b, chunk_capacity(1, total as u64), zeros),
            SszType::Bitlist(limit) => {
                let (top, weight) = gindex_level_of(b[total - 1] as usize);
                proof {
                    if top >= 8 {
                        crate::merkle::lemma_two_pow_monotonic(8, top as nat);
                        reveal_with_fuel(two_pow, 9);
                    }
                }
                let data = bitlist_bytes(b);
                let bytes = *limit / 8 + if *limit % 8 == 0 {
                    0
                } else {
                    1
                };
                let inner = packed_root(data.as_slice(), chunk_capacity(1, bytes), zeros);
                mix_in_length_node(&inner, 8 * ((total - 1) as u64) + top as u64)
            },
            SszType::Vector(elem, count) => Self::elems_root(elem, b, *count, zeros),
            SszType::List(elem, limit) => {
                let inner = Self::elems_root(elem, b, *limit, zeros);
                let elem_len = elem.fixed_len();
                proof {
                    lemma_fixed_len_bounds(elem@);
                }
                proof {
                    lemma_elems_laid_out(elem@, b@);
                }
                match seq_header(elem_len, b) {
                    Some(n) => mix_in_length_node(&inner, n as u64),
                    None => {
                        assert(false);
                        inner
                    },
                }
            },
            SszType::Container(fields) => Self::fields_root(fields, b, zeros),
        }
    }

    /// The root of the container with these fields that `b` serializes.
    pub fn fields_root(fields: &Vec<SszType>, b: &[u8], zeros: &ZeroHashes) -> (root: Hash256)
        requires
            well_formed(SszType::Container(*fields)@),
            valid(SszType::Container(*fields)@, b@),
        ensures
            root@ == hash_tree_root(SszType::Container(*fields)@, b@),
        decreases fields, 2nat, 0nat,
    {
        let roots = Self::field_root_nodes(fields, b, zeros);
        proof {
            lemma_field_roots_len(SszType::Container(*fields)@->Container_0, b@, fields@.len());
        }
        assert(roots@.len() == nodes_view(roots@).len());
        merkleize(roots, depth_for(fields.len() as u64), zeros)
    }

    /// The roots of the fields of the container that `b` serializes: the leaves
    /// of its tree.
    pub fn field_root_nodes(fields: &Vec<SszType>, b: &[u8], zeros: &ZeroHashes) -> (roots: Vec<
        Hash256,
    >)
        requires
            well_formed(SszType::Container(*fields)@),
            valid(SszType::Container(*fields)@, b@),
        ensures
            nodes_view(roots@) == field_roots(
                SszType::Container(*fields)@->Container_0,
                b@,
                fields@.len(),
            ),
            roots@.len() == fields@.len(),
        decreases fields, 1nat, 0nat,
    {
        let total = b.len();
        let ghost types = SszType::Container(*fields)@->Container_0;
        let (parts, _) = Self::field_parts(fields);
        let mut roots: Vec<Hash256> = Vec::with_capacity(fields.len());
        let mut k: usize = 0;
        while k < fields.len()
            invariant
                k <= fields.len(),
                roots@.len() == k,
                total == b@.len(),
                types == SszType::Container(*fields)@->Container_0,
                types.len() == fields.len(),
                well_formed(TypeSpec::Container(types)),
                valid(TypeSpec::Container(types), b@),
                parts_of(parts@, types, types.len()),
                nodes_view(roots@) == field_roots(types, b@, k as nat),
            decreases fields.len() - k,
        {
            let (start, end) = field_range(&parts, b, k, Ghost(types));
            proof {
                lemma_field_end_bounded(types, b@, k as int);
                assert(types[k as int] == fields@[k as int]@);
            }
            let part = slice_subrange(b, start as usize, end as usize);
            assert(part@ == field_bytes(types, b@, k as int));
            let root = fields[k].hash_tree_root(part, zeros);
            proof {
                assert(nodes_view(roots@.push(root)) =~= nodes_view(roots@).push(root@));
            }
            roots.push(root);
            k += 1;
        }
        roots
    }

    /// The root of the elements of type `elem` that `b` holds, in a tree with
    /// room for `capacity` of them.
    pub fn elems_root(elem: &SszType, b: &[u8], capacity: u64, zeros: &ZeroHashes) -> (root:
        Hash256)
        requires
            well_formed(elem@),
            elems_valid(elem@, b@),
            elem_count(fixed_len(elem@), b@) <= capacity,
        ensures
            root@ == elems_root(elem@, b@, capacity as nat),
        decreases elem, 2nat, 0nat,
    {
        let total = b.len();
        match elem {
            SszType::Uint(width) => {
                assert(b@.len() <= *width * capacity) by (nonlinear_arith)
                    requires
                        b@.len() % (*width as nat) == 0,
                        b@.len() / (*width as nat) <= capacity,
                        *width >= 1,
                ;
                packed_root(b, chunk_capacity(*width, capacity), zeros)
            },
            SszType::Boolean => packed_root(b, chunk_capacity(1, capacity), zeros),
            _ => {
                let elem_len = elem.fixed_len();
                let ghost len = fixed_len(elem@);
                proof {
                    lemma_fixed_len_bounds(elem@);
                }
                assert(elems_laid_out(len, b@));
                let count = match seq_header(elem_len, b) {
                    Some(n) => n,
                    None => {
                        assert(false);
                        0
                    },
                };
                let mut roots: Vec<Hash256> = Vec::with_capacity(count);
                let mut i: usize = 0;
                while i < count
                    invariant
                        i <= count,
                        total == b@.len(),
                        well_formed(elem@),
                        elems_valid(elem@, b@),
                        len == fixed_len(elem@),
                        len == len_view(elem_len),
                        elem_len matches Some(l) ==> l >= 1,
                        count == elem_count(len, b@),
                        nodes_view(roots@) == elem_roots(elem@, b@, i as nat),
                    decreases count - i,
                {
                    let (start, end) = elem_range(elem_len, b, count, i);
                    proof {
                        lemma_elem_end_bounded(len, b@, i as int);
                    }
                    let part = slice_subrange(b, start as usize, end as usize);
                    assert(part@ == elem_bytes(len, b@, i as int));
                    let root = elem.hash_tree_root(part, zeros);
                    proof {
                        assert(nodes_view(roots@.push(root)) =~= nodes_view(roots@).push(root@));
                    }
                    roots.push(root);
                    i += 1;
                }
                proof {
                    lemma_elem_roots_len(elem@, b@, count as nat);
                }
                assert(roots@.len() == nodes_view(roots@).len());
                merkleize(roots, depth_for(capacity), zeros)
            },
        }
    }
}

/// The hash tree root of the value of type `t` that `b` serializes, where the
/// type is well formed and `b` serializes a value of it.
pub fn tree_hash_root(t: &SszType, b: &[u8]) -> (root: Option<Hash256>)
    ensures
        (root is Some) <==> well_formed(t@) && valid(t@, b@),
        root matches Some(r) ==> r@ == hash_tree_root(t@, b@),
{
    if t.is_well_formed() && t.is_valid(b) {
        let zeros = ZeroHashes::new();
        Some(t.hash_tree_root(b, &zeros))
    } else {
        None
    }
}

} // verus!
