//! Binary hash trees addressed by generalized index.

use vstd::prelude::*;
use vstd::arithmetic::power2::{lemma2_to64, lemma_pow2_unfold, pow2};
use crate::hash::{hash_eq, hash_nodes, hash_pair, zero_chunk, zero_node, Hash256};

verus! {

/// Two to the power `e`.
pub open spec fn two_pow(e: nat) -> nat
    decreases e,
{
    if e == 0 {
        1
    } else {
        2 * two_pow((e - 1) as nat)
    }
}

/// No power of two is zero.
pub proof fn lemma_two_pow_positive(e: nat)
    ensures
        two_pow(e) >= 1,
    decreases e,
{
    if e > 0 {
        lemma_two_pow_positive((e - 1) as nat);
    }
}

/// The node with generalized index `g` in the tree of the given depth over
/// `leaves`, padded on the right with zero nodes. The root has index 1, the
/// children of node `g` are `2g` and `2g + 1`, and the leaves are the indices
/// from `two_pow(depth)` on.
pub open spec fn tree_node(leaves: Seq<Seq<u8>>, depth: nat, g: nat) -> Seq<u8>
    decreases 2 * two_pow(depth) - g,
{
    if 1 <= g < two_pow(depth) {
        hash_pair(tree_node(leaves, depth, 2 * g), tree_node(leaves, depth, 2 * g + 1))
    } else if two_pow(depth) <= g < two_pow(depth) + leaves.len() {
        leaves[g - two_pow(depth)]
    } else {
        zero_chunk()
    }
}

/// The root of the tree of the given depth over `leaves`.
pub open spec fn merkle_root(leaves: Seq<Seq<u8>>, depth: nat) -> Seq<u8> {
    tree_node(leaves, depth, 1)
}

/// The other child of the parent of node `g`.
pub open spec fn sibling(g: nat) -> nat {
    if g % 2 == 0 {
        g + 1
    } else {
        (g - 1) as nat
    }
}

/// The audit path of node `g`: the sibling of `g`, then the sibling of its
/// parent, and so on up to the children of the root.
pub open spec fn audit_path(leaves: Seq<Seq<u8>>, depth: nat, g: nat) -> Seq<Seq<u8>>
    decreases g,
{
    if g <= 1 {
        Seq::empty()
    } else {
        seq![tree_node(leaves, depth, sibling(g))] + audit_path(leaves, depth, g / 2)
    }
}

/// The node reached from `node` at index `g` by hashing it with each element of
/// `path` in turn, the sibling on the left where the index is odd and on the
/// right where it is even.
pub open spec fn fold_path(node: Seq<u8>, path: Seq<Seq<u8>>, g: nat) -> Seq<u8>
    decreases path.len(),
{
    if path.len() == 0 {
        node
    } else {
        let parent = if g % 2 == 0 {
            hash_pair(node, path[0])
        } else {
            hash_pair(path[0], node)
        };
        fold_path(parent, path.skip(1), g / 2)
    }
}

/// Whether `g` names a node of a tree of the given depth.
pub open spec fn in_tree(depth: nat, g: nat) -> bool {
    1 <= g < 2 * two_pow(depth)
}

/// Every node of a tree, folded with its own audit path, gives the root.
pub proof fn lemma_audit_path_reaches_root(leaves: Seq<Seq<u8>>, depth: nat, g: nat)
    requires
        in_tree(depth, g),
    ensures
        fold_path(tree_node(leaves, depth, g), audit_path(leaves, depth, g), g) == merkle_root(
            leaves,
            depth,
        ),
    decreases g,
{
    if g > 1 {
        let path = audit_path(leaves, depth, g);
        let up = audit_path(leaves, depth, g / 2);
        assert(path.skip(1) =~= up);
        assert(path[0] == tree_node(leaves, depth, sibling(g)));
        lemma_audit_path_reaches_root(leaves, depth, g / 2);
    }
}

/// The level of node `g` below the root: 0 for the root, one more for each
/// halving that it takes to reach the root.
pub open spec fn gindex_level(g: nat) -> nat
    decreases g,
{
    if g <= 1 {
        0
    } else {
        1 + gindex_level(g / 2)
    }
}

/// The audit path of a node has one element for each level below the root.
pub proof fn lemma_audit_path_len(leaves: Seq<Seq<u8>>, depth: nat, g: nat)
    ensures
        audit_path(leaves, depth, g).len() == gindex_level(g),
    decreases g,
{
    if g > 1 {
        lemma_audit_path_len(leaves, depth, g / 2);
    }
}

/// A larger exponent gives no smaller power of two.
pub proof fn lemma_two_pow_monotonic(a: nat, b: nat)
    requires
        a <= b,
    ensures
        two_pow(a) <= two_pow(b),
    decreases b,
{
    if a < b {
        lemma_two_pow_monotonic(a, (b - 1) as nat);
    }
}

/// `two_pow` is the power of two of the standard library.
pub proof fn lemma_two_pow_is_pow2(e: nat)
    ensures
        two_pow(e) == pow2(e),
    decreases e,
{
    if e == 0 {
        lemma2_to64();
    } else {
        lemma_two_pow_is_pow2((e - 1) as nat);
        lemma_pow2_unfold(e);
    }
}

/// A node on level `l` has an index from `two_pow(l)` up to twice that.
pub proof fn lemma_level_bounds(g: nat)
    requires
        g >= 1,
    ensures
        two_pow(gindex_level(g)) <= g < 2 * two_pow(gindex_level(g)),
    decreases g,
{
    if g > 1 {
        lemma_level_bounds(g / 2);
    }
}

/// The level of a node is the one whose range of indices holds it.
pub proof fn lemma_level_unique(g: nat, l: nat)
    requires
        two_pow(l) <= g < 2 * two_pow(l),
    ensures
        gindex_level(g) == l,
    decreases l,
{
    if l > 0 {
        lemma_two_pow_positive((l - 1) as nat);
        lemma_level_unique(g / 2, (l - 1) as nat);
    }
}

/// The root of a tree of the given height that holds zero nodes only.
pub open spec fn zero_hash(height: nat) -> Seq<u8>
    decreases height,
{
    if height == 0 {
        zero_chunk()
    } else {
        hash_pair(zero_hash((height - 1) as nat), zero_hash((height - 1) as nat))
    }
}

/// The smallest depth of a tree with room for `n` leaves.
pub open spec fn tree_depth(n: nat) -> nat
    decreases n,
{
    if n <= 1 {
        0
    } else {
        1 + tree_depth((n + 1) / 2)
    }
}

/// A tree of depth `tree_depth(n)` has room for `n` leaves.
pub proof fn lemma_tree_depth_fits(n: nat)
    ensures
        n <= two_pow(tree_depth(n)),
    decreases n,
{
    if n > 1 {
        lemma_tree_depth_fits((n + 1) / 2);
    }
}

/// No tree with room for `n` leaves is shallower than `tree_depth(n)`.
pub proof fn lemma_tree_depth_least(n: nat, d: nat)
    requires
        n <= two_pow(d),
    ensures
        tree_depth(n) <= d,
    decreases d,
{
    if n > 1 {
        lemma_tree_depth_least((n + 1) / 2, (d - 1) as nat);
    }
}

/// The bytes of each node of a sequence.
pub open spec fn nodes_view(nodes: Seq<Hash256>) -> Seq<Seq<u8>> {
    nodes.map_values(|h: Hash256| h@)
}

/// The deepest tree that the library builds.
pub const MAX_DEPTH: usize = 64;

/// The roots of the all-zero trees of every height up to `MAX_DEPTH`.
pub struct ZeroHashes {
    table: Vec<Hash256>,
}

impl View for ZeroHashes {
    type V = Seq<Seq<u8>>;

    /// The table: at each height the bytes of the root that it holds.
    closed spec fn view(&self) -> Seq<Seq<u8>> {
        nodes_view(self.table@)
    }
}

impl ZeroHashes {
    #[verifier::type_invariant]
    spec fn filled(&self) -> bool {
        &&& self.table.len() == MAX_DEPTH + 1
        &&& forall|h: int|
            0 <= h <= MAX_DEPTH ==> (#[trigger] self.table[h])@ == zero_hash(h as nat)
    }

    /// Computes the table, one hash for each height: the zero node at height
    /// zero, and at each height above it the hash of the root below with itself.
    pub fn new() -> (zeros: Self)
        ensures
            zeros@.len() == MAX_DEPTH + 1,
            forall|h: int| 0 <= h <= MAX_DEPTH ==> #[trigger] zeros@[h] == zero_hash(h as nat),
    {
        let mut table: Vec<Hash256> = Vec::with_capacity(MAX_DEPTH + 1);
        table.push(zero_node());
        let mut h: usize = 0;
        while h < MAX_DEPTH
            invariant
                h <= MAX_DEPTH,
                table.len() == h + 1,
                forall|k: int| 0 <= k <= h ==> (#[trigger] table[k])@ == zero_hash(k as nat),
            decreases MAX_DEPTH - h,
        {
            let below = table[h];
            let next = hash_nodes(&below, &below);
            table.push(next);
            h += 1;
        }
        ZeroHashes { table }
    }

    /// The root of the all-zero tree of the given height.
    pub fn get(&self, height: usize) -> (node: Hash256)
        requires
            height <= MAX_DEPTH,
        ensures
            node@ == zero_hash(height as nat),
            node@ == self@[height as int],
    {
        proof {
            use_type_invariant(self);
        }
        self.table[height]
    }
}

/// Whether `layer` holds the nodes of the tree that lie `height` levels above
/// the leaves, from the left, and every node of that level to the right of them
/// is the root of an all-zero tree.
pub open spec fn is_layer(
    leaves: Seq<Seq<u8>>,
    depth: nat,
    height: nat,
    layer: Seq<Hash256>,
) -> bool {
    let width = two_pow((depth - height) as nat);
    &&& height <= depth
    &&& layer.len() <= width
    &&& forall|p: int|
        0 <= p < layer.len() ==> (#[trigger] layer[p])@ == tree_node(
            leaves,
            depth,
            (width + p) as nat,
        )
    &&& forall|p: int|
        layer.len() <= p < width ==> #[trigger] tree_node(leaves, depth, (width + p) as nat)
            == zero_hash(height)
}

/// The leaves are the layer at height zero.
proof fn lemma_leaves_are_layer(leaves: Seq<Hash256>, depth: nat)
    requires
        leaves.len() <= two_pow(depth),
    ensures
        is_layer(nodes_view(leaves), depth, 0, leaves),
{
}

/// The level above `layer`: each node hashed with its right neighbour, the last
/// with the root of an all-zero tree where it has none.
fn next_layer(
    layer: &Vec<Hash256>,
    height: usize,
    zeros: &ZeroHashes,
    Ghost(leaves): Ghost<Seq<Seq<u8>>>,
    Ghost(depth): Ghost<nat>,
) -> (next: Vec<Hash256>)
    requires
        height < depth <= MAX_DEPTH,
        is_layer(leaves, depth, height as nat, layer@),
    ensures
        is_layer(leaves, depth, (height + 1) as nat, next@),
        next.len() == (layer.len() + 1) / 2,
{
    let n = layer.len();
    let half = n / 2 + n % 2;
    let zero = zeros.get(height);
    let ghost width = two_pow((depth - height - 1) as nat);
    proof {
        lemma_two_pow_positive((depth - height - 1) as nat);
        lemma_two_pow_monotonic((depth - height) as nat, depth);
        assert(two_pow((depth - height) as nat) == 2 * width);
    }
    let mut next: Vec<Hash256> = Vec::with_capacity(half);
    let mut i: usize = 0;
    while i < half
        invariant
            n == layer.len(),
            half == n / 2 + n % 2,
            i <= half,
            next.len() == i,
            height < depth,
            width == two_pow((depth - height - 1) as nat),
            width >= 1,
            2 * width == two_pow((depth - height) as nat),
            2 * width <= two_pow(depth),
            is_layer(leaves, depth, height as nat, layer@),
            zero@ == zero_hash(height as nat),
            forall|p: int|
                0 <= p < i ==> (#[trigger] next[p])@ == tree_node(
                    leaves,
                    depth,
                    (width + p) as nat,
                ),
        decreases half - i,
    {
        let left = layer[2 * i];
        let right = if 2 * i + 1 < n {
            layer[2 * i + 1]
        } else {
            zero
        };
        let parent = hash_nodes(&left, &right);
        proof {
            let g = (width + i) as nat;
            assert(1 <= g < two_pow(depth));
            assert(left@ == tree_node(leaves, depth, 2 * g)) by {
                assert(layer@[2 * i]@ == tree_node(leaves, depth, (2 * width + 2 * i) as nat));
            }
            assert(right@ == tree_node(leaves, depth, 2 * g + 1)) by {
                if 2 * i + 1 < n {
                    assert(layer@[2 * i + 1]@ == tree_node(
                        leaves,
                        depth,
                        (2 * width + (2 * i + 1)) as nat,
                    ));
                } else {
                    assert(tree_node(leaves, depth, (2 * width + (2 * i + 1)) as nat) == zero_hash(
                        height as nat,
                    ));
                }
            }
        }
        next.push(parent);
        i += 1;
    }
    proof {
        assert forall|p: int| next.len() <= p < width implies #[trigger] tree_node(
            leaves,
            depth,
            (width + p) as nat,
        ) == zero_hash((height + 1) as nat) by {
            let g = (width + p) as nat;
            assert(1 <= g < two_pow(depth));
            assert(tree_node(leaves, depth, (2 * width + 2 * p) as nat) == zero_hash(
                height as nat,
            ));
            assert(tree_node(leaves, depth, (2 * width + (2 * p + 1)) as nat) == zero_hash(
                height as nat,
            ));
            assert(2 * g == 2 * width + 2 * p);
        }
    }
    next
}

/// The root of the tree of the given depth over `leaves`.
pub fn merkleize(leaves: Vec<Hash256>, depth: usize, zeros: &ZeroHashes) -> (root: Hash256)
    requires
        depth <= MAX_DEPTH,
        leaves.len() <= two_pow(depth as nat),
    ensures
        root@ == merkle_root(nodes_view(leaves@), depth as nat),
{
    let ghost all = nodes_view(leaves@);
    proof {
        lemma_leaves_are_layer(leaves@, depth as nat);
    }
    let mut layer = leaves;
    let mut height: usize = 0;
    while height < depth
        invariant
            height <= depth <= MAX_DEPTH,
            is_layer(all, depth as nat, height as nat, layer@),
        decreases depth - height,
    {
        layer = next_layer(&layer, height, zeros, Ghost(all), Ghost(depth as nat));
        height += 1;
    }
    if layer.len() == 1 {
        layer[0]
    } else {
        assert(tree_node(all, depth as nat, (1 + 0) as nat) == zero_hash(depth as nat));
        zeros.get(depth)
    }
}

/// The level of node `g` and the index of the first node of that level.
pub fn gindex_level_of(g: usize) -> (r: (usize, usize))
    requires
        g >= 1,
    ensures
        r.0 == gindex_level(g as nat),
        r.1 == two_pow(r.0 as nat),
        r.1 <= g < 2 * r.1,
{
    let mut level: usize = 0;
    let mut first: usize = 1;
    while first <= g / 2
        invariant
            first == two_pow(level as nat),
            first <= g,
            level < first,
        decreases g - first,
    {
        first = 2 * first;
        level += 1;
    }
    proof {
        lemma_level_unique(g as nat, level as nat);
    }
    (level, first)
}

/// Node `g` of the tree of the given depth over `leaves`, and its audit path.
pub fn merkle_branch(leaves: &Vec<Hash256>, depth: usize, g: usize, zeros: &ZeroHashes) -> (r: (
    Hash256,
    Vec<Hash256>,
))
    requires
        depth <= MAX_DEPTH,
        leaves.len() <= two_pow(depth as nat),
        in_tree(depth as nat, g as nat),
    ensures
        r.0@ == tree_node(nodes_view(leaves@), depth as nat, g as nat),
        nodes_view(r.1@) == audit_path(nodes_view(leaves@), depth as nat, g as nat),
{
    let ghost all = nodes_view(leaves@);
    let (level, first_of_level) = gindex_level_of(g);
    proof {
        lemma_leaves_are_layer(leaves@, depth as nat);
        lemma_level_bounds(g as nat);
        if level > depth {
            lemma_two_pow_monotonic((depth + 1) as nat, level as nat);
        }
    }
    let start = depth - level;
    let mut layer: Vec<Hash256> = Vec::new();
    let mut height: usize = 0;
    if start == 0 {
        layer = copy_nodes(leaves);
    } else {
        layer = next_layer(leaves, 0, zeros, Ghost(all), Ghost(depth as nat));
        height = 1;
    }
    while height < start
        invariant
            height <= start <= depth <= MAX_DEPTH,
            is_layer(all, depth as nat, height as nat, layer@),
        decreases start - height,
    {
        layer = next_layer(&layer, height, zeros, Ghost(all), Ghost(depth as nat));
        height += 1;
    }
    proof {
        lemma_level_bounds(g as nat);
    }
    let place = g - first_of_level;
    let node = if place < layer.len() {
        layer[place]
    } else {
        zeros.get(height)
    };
    assert(node@ == tree_node(all, depth as nat, (first_of_level + place) as nat)) by {
        if place < layer.len() {
            assert(layer@[place as int]@ == tree_node(
                all,
                depth as nat,
                (first_of_level + place) as nat,
            ));
        } else {
            assert(tree_node(all, depth as nat, (first_of_level + place) as nat) == zero_hash(
                height as nat,
            ));
        }
    }
    let mut path: Vec<Hash256> = Vec::new();
    let mut cur = g;
    let mut first = first_of_level;
    assert(nodes_view(path@) + audit_path(all, depth as nat, cur as nat) =~= audit_path(
        all,
        depth as nat,
        g as nat,
    ));
    while height < depth
        invariant
            height <= depth <= MAX_DEPTH,
            is_layer(all, depth as nat, height as nat, layer@),
            first == two_pow((depth - height) as nat),
            first <= cur < 2 * first,
            nodes_view(path@) + audit_path(all, depth as nat, cur as nat) == audit_path(
                all,
                depth as nat,
                g as nat,
            ),
        decreases depth - height,
    {
        let pos = cur - first;
        let beside = if cur % 2 == 0 {
            pos + 1
        } else {
            pos - 1
        };
        let next = if beside < layer.len() {
            layer[beside]
        } else {
            zeros.get(height)
        };
        proof {
            assert(first + beside == sibling(cur as nat));
            assert(next@ == tree_node(all, depth as nat, sibling(cur as nat))) by {
                if beside < layer.len() {
                    assert(layer@[beside as int]@ == tree_node(
                        all,
                        depth as nat,
                        (first + beside) as nat,
                    ));
                } else {
                    assert(tree_node(all, depth as nat, (first + beside) as nat) == zero_hash(
                        height as nat,
                    ));
                }
            }
            assert(nodes_view(path@.push(next)) + audit_path(all, depth as nat, (cur / 2) as nat)
                =~= nodes_view(path@) + audit_path(all, depth as nat, cur as nat));
        }
        path.push(next);
        layer = next_layer(&layer, height, zeros, Ghost(all), Ghost(depth as nat));
        cur = cur / 2;
        first = first / 2;
        height += 1;
    }
    assert(nodes_view(path@) + Seq::<Seq<u8>>::empty() =~= nodes_view(path@));
    (node, path)
}

/// The audit path of node `g` in the tree of the given depth over `leaves`.
pub fn merkle_proof(leaves: &Vec<Hash256>, depth: usize, g: usize, zeros: &ZeroHashes) -> (path:
    Vec<Hash256>)
    requires
        depth <= MAX_DEPTH,
        leaves.len() <= two_pow(depth as nat),
        in_tree(depth as nat, g as nat),
    ensures
        nodes_view(path@) == audit_path(nodes_view(leaves@), depth as nat, g as nat),
{
    merkle_branch(leaves, depth, g, zeros).1
}

/// A copy of a sequence of nodes.
fn copy_nodes(nodes: &Vec<Hash256>) -> (copy: Vec<Hash256>)
    ensures
        copy@ == nodes@,
{
    let mut copy: Vec<Hash256> = Vec::with_capacity(nodes.len());
    let mut i: usize = 0;
    while i < nodes.len()
        invariant
            i <= nodes.len(),
            copy@ == nodes@.take(i as int),
        decreases nodes.len() - i,
    {
        copy.push(nodes[i]);
        assert(nodes@.take(i as int).push(nodes@[i as int]) =~= nodes@.take(i + 1));
        i += 1;
    }
    assert(nodes@.take(nodes.len() as int) =~= nodes@);
    copy
}

/// The node that `node` at index `g` folds to along `path`.
pub fn fold_merkle_path(node: &Hash256, path: &Vec<Hash256>, g: usize) -> (top: Hash256)
    ensures
        top@ == fold_path(node@, nodes_view(path@), g as nat),
{
    let mut top = *node;
    let mut cur = g;
    let mut i: usize = 0;
    assert(nodes_view(path@).skip(0) =~= nodes_view(path@));
    while i < path.len()
        invariant
            i <= path.len(),
            fold_path(top@, nodes_view(path@).skip(i as int), cur as nat) == fold_path(
                node@,
                nodes_view(path@),
                g as nat,
            ),
        decreases path.len() - i,
    {
        let ghost rest = nodes_view(path@).skip(i as int);
        let beside = path[i];
        assert(rest[0] == beside@);
        assert(rest.skip(1) =~= nodes_view(path@).skip(i + 1));
        top = if cur % 2 == 0 {
            hash_nodes(&top, &beside)
        } else {
            hash_nodes(&beside, &top)
        };
        cur = cur / 2;
        i += 1;
    }
    top
}

/// Whether `path` is as long as an audit path of node `g` and folds `node` to
/// `root`.
pub fn verify_merkle_proof(node: &Hash256, path: &Vec<Hash256>, g: usize, root: &Hash256) -> (ok:
    bool)
    ensures
        ok == (g >= 1 && path.len() == gindex_level(g as nat) && fold_path(
            node@,
            nodes_view(path@),
            g as nat,
        ) == root@),
{
    if g == 0 {
        return false;
    }
    let (level, _) = gindex_level_of(g);
    if path.len() != level {
        return false;
    }
    let top = fold_merkle_path(node, path, g);
    hash_eq(&top, root)
}

} // verus!
