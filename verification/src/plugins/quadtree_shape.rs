//! The shape of a chunk quadtree, and why updates keep it: every chunk
//! below the face roots hangs under a subdivided parent, and every
//! subdivided chunk has its four children.
use vstd::prelude::*;
use crate::plugins::quadtree::{pow4, QuadtreeAddress};
use crate::plugins::quadtree_manager::{
    all_children_are_leaves, child_key, fresh_leaf, insertion_point, keys_match, lemma_insertion_point_bounds,
    lemma_sort_members, pass_one, pass_two, sort_by_distance, spec_update, subdivision_limit, without_children,
    children_with_entities, with_state, wants_merge, wants_subdivision, NodeMetrics, UpdatePass, law_node_key_injective, node_key, with_children, ChunkState, QuadtreeNode,
    SUBDIVISION_DEPTH_LIMIT,
};

verus! {

/// The key of the parent of a non-root address.
pub open spec fn parent_key(a: QuadtreeAddress) -> u128 {
    node_key(a.spec_parent()->0)
}

/// The nodes form a quadtree: every node below the roots hangs under a
/// subdivided parent, and every subdivided node has its four children.
pub open spec fn tree_shaped(nodes: Map<u128, QuadtreeNode>) -> bool {
    &&& forall|k: u128|
        nodes.contains_key(k) && nodes[k].address.depth > 0 ==> nodes.contains_key(
            #[trigger] parent_key(nodes[k].address),
        ) && nodes[parent_key(nodes[k].address)].state == ChunkState::Subdivided
    &&& forall|k: u128, q: u8|
        nodes.contains_key(k) && nodes[k].state == ChunkState::Subdivided && q < 4 ==> nodes.contains_key(
            #[trigger] child_key(nodes[k].address, q),
        )
}

/// A non-root address is the child of its parent, in the quadrant of its
/// two low Morton bits.
proof fn lemma_child_of_parent(c: QuadtreeAddress)
    requires
        c.wf(),
        c.depth > 0,
    ensures
        (c.spec_parent()->0).wf(),
        (c.spec_parent()->0).depth < 31,
        (c.spec_parent()->0).spec_child((c.morton % 4) as u8) == c,
{
    let p = c.spec_parent()->0;
    let m = c.morton as int;
    assert(pow4(c.depth as nat) == 4 * pow4((c.depth - 1) as nat));
    assert(m / 4 < pow4(p.depth as nat));
    assert(m == (m / 4) * 4 + m % 4);
    assert(((m / 4) * 4 + m % 4) % 0x1_0000_0000_0000_0000 == m);
}

/// Addresses at different depths have different keys.
pub(crate) proof fn lemma_depths_differ(a: QuadtreeAddress, b: QuadtreeAddress)
    requires
        a.depth != b.depth,
    ensures
        node_key(a) != node_key(b),
{
    if node_key(a) == node_key(b) {
        law_node_key_injective(a, b);
    }
}

/// Law: in a quadtree, a chunk that is not subdivided (a leaf, or one whose
/// mesh is generating) has none of its four children among the nodes.
pub proof fn law_unsplit_chunk_childless(nodes: Map<u128, QuadtreeNode>, k: u128, q: u8)
    requires
        keys_match(nodes),
        tree_shaped(nodes),
        nodes.contains_key(k),
        nodes[k].state != ChunkState::Subdivided,
        q < 4,
    ensures
        !nodes.contains_key(child_key(nodes[k].address, q)),
{
    let a = nodes[k].address;
    let ck = child_key(a, q);
    if nodes.contains_key(ck) {
        let c = nodes[ck].address;
        law_node_key_injective(c, a.spec_child(q));
        crate::plugins::quadtree::law_parent_of_child(a, q);
        assert(parent_key(c) == k);
    }
}

/// The four children of `a` have distinct keys, none of them `a`'s own.
pub(crate) proof fn lemma_child_keys(a: QuadtreeAddress)
    requires
        a.wf(),
        a.depth < 31,
    ensures
        forall|q1: u8, q2: u8| q1 < 4 && q2 < 4 && q1 != q2 ==> child_key(a, q1) != child_key(a, q2),
        forall|q: u8| q < 4 ==> child_key(a, q) != node_key(a),
        forall|q: u8| q < 4 ==> (#[trigger] a.spec_child(q)).wf() && a.spec_child(q).spec_parent() == Some(a),
{
    assert forall|q: u8| q < 4 implies (#[trigger] a.spec_child(q)).wf() && a.spec_child(q).spec_parent() == Some(a) by {
        crate::plugins::quadtree::law_parent_of_child(a, q);
    }
    assert forall|q1: u8, q2: u8| q1 < 4 && q2 < 4 && q1 != q2 implies child_key(a, q1) != child_key(a, q2) by {
        crate::plugins::quadtree::law_children_distinct(a, q1, q2);
        if child_key(a, q1) == child_key(a, q2) {
            law_node_key_injective(a.spec_child(q1), a.spec_child(q2));
        }
    }
    assert forall|q: u8| q < 4 implies child_key(a, q) != node_key(a) by {
        lemma_depths_differ(a.spec_child(q), a);
    }
}

/// The nodes after the chunk at `k` splits: it becomes subdivided and gets
/// four fresh leaf children.
pub open spec fn split_at(nodes: Map<u128, QuadtreeNode>, k: u128) -> Map<u128, QuadtreeNode> {
    with_children(
        nodes.insert(k, QuadtreeNode { state: ChunkState::Subdivided, ..nodes[k] }),
        nodes[k].address,
    )
}

/// `x` is the key of one of the four children of `a`.
pub open spec fn is_child_key(a: QuadtreeAddress, x: u128) -> bool {
    x == child_key(a, 0) || x == child_key(a, 1) || x == child_key(a, 2) || x == child_key(a, 3)
}

/// `new` is `nodes` where the node at `k` (address `a`) is subdivided and
/// has four fresh leaf children, and nothing else changed.
pub(crate) open spec fn split_entries(nodes: Map<u128, QuadtreeNode>, new: Map<u128, QuadtreeNode>, k: u128, a: QuadtreeAddress) -> bool {
    &&& forall|q: u8|
        q < 4 ==> new.contains_key(#[trigger] child_key(a, q)) && new[child_key(a, q)] == fresh_leaf(a.spec_child(q))
    &&& new.contains_key(k) && new[k] == (QuadtreeNode { state: ChunkState::Subdivided, ..nodes[k] })
    &&& forall|x: u128|
        x != k && !is_child_key(a, x) ==> (#[trigger] new.contains_key(x) == nodes.contains_key(x)) && new[x]
            == nodes[x]
}

pub(crate) proof fn lemma_split_entries(nodes: Map<u128, QuadtreeNode>, k: u128)
    requires
        keys_match(nodes),
        nodes.contains_key(k),
        nodes[k].address.wf(),
        nodes[k].address.depth < 31,
    ensures
        split_entries(nodes, split_at(nodes, k), k, nodes[k].address),
{
    let a = nodes[k].address;
    let new = split_at(nodes, k);
    lemma_child_keys(a);
    assert forall|q: u8| q < 4 implies new.contains_key(#[trigger] child_key(a, q)) && new[child_key(a, q)]
        == fresh_leaf(a.spec_child(q)) by {
        if q == 0 {
        } else if q == 1 {
        } else if q == 2 {
        } else {
        }
    }
}

/// Splitting a chunk that is not subdivided keeps the quadtree shape; the
/// only newly subdivided node is the one that split.
pub(crate) proof fn lemma_split_keeps_shape(nodes: Map<u128, QuadtreeNode>, k: u128)
    requires
        keys_match(nodes),
        tree_shaped(nodes),
        nodes.contains_key(k),
        nodes[k].state != ChunkState::Subdivided,
        nodes[k].address.depth < SUBDIVISION_DEPTH_LIMIT,
    ensures
        keys_match(split_at(nodes, k)),
        tree_shaped(split_at(nodes, k)),
        forall|x: u128|
            #[trigger] split_at(nodes, k).contains_key(x) && split_at(nodes, k)[x].state == ChunkState::Subdivided
                ==> x == k || (nodes.contains_key(x) && nodes[x].state == ChunkState::Subdivided),
{
    lemma_split_entries(nodes, k);
    lemma_split_shape(nodes, split_at(nodes, k), k);
}

/// The entry of `new` at a child key is the fresh leaf of that child.
pub(crate) proof fn lemma_child_entry(new: Map<u128, QuadtreeNode>, a: QuadtreeAddress, x: u128) -> (q: u8)
    requires
        is_child_key(a, x),
        forall|q: u8|
            q < 4 ==> new.contains_key(#[trigger] child_key(a, q)) && new[child_key(a, q)] == fresh_leaf(
                a.spec_child(q),
            ),
    ensures
        q < 4,
        x == child_key(a, q),
        new.contains_key(x),
        new[x] == fresh_leaf(a.spec_child(q)),
{
    if x == child_key(a, 0) {
        0
    } else if x == child_key(a, 1) {
        1
    } else if x == child_key(a, 2) {
        2
    } else {
        3
    }
}

proof fn lemma_split_shape(nodes: Map<u128, QuadtreeNode>, new: Map<u128, QuadtreeNode>, k: u128)
    requires
        keys_match(nodes),
        tree_shaped(nodes),
        nodes.contains_key(k),
        nodes[k].state != ChunkState::Subdivided,
        nodes[k].address.depth < SUBDIVISION_DEPTH_LIMIT,
        split_entries(nodes, new, k, nodes[k].address),
    ensures
        keys_match(new),
        tree_shaped(new),
        forall|x: u128|
            #[trigger] new.contains_key(x) && new[x].state == ChunkState::Subdivided ==> x == k || (
            nodes.contains_key(x) && nodes[x].state == ChunkState::Subdivided),
{
    let a = nodes[k].address;
    lemma_child_keys(a);
    law_unsplit_chunk_childless(nodes, k, 0);
    law_unsplit_chunk_childless(nodes, k, 1);
    law_unsplit_chunk_childless(nodes, k, 2);
    law_unsplit_chunk_childless(nodes, k, 3);
    lemma_split_keys_match(nodes, new, k);
    lemma_split_parents(nodes, new, k);
    lemma_split_children(nodes, new, k);
    assert forall|x: u128|
        #[trigger] new.contains_key(x) && new[x].state == ChunkState::Subdivided implies x == k || (
        nodes.contains_key(x) && nodes[x].state == ChunkState::Subdivided) by {
        if is_child_key(a, x) {
            lemma_child_entry(new, a, x);
        }
    }
}

pub(crate) proof fn lemma_split_keys_match(nodes: Map<u128, QuadtreeNode>, new: Map<u128, QuadtreeNode>, k: u128)
    requires
        keys_match(nodes),
        nodes.contains_key(k),
        nodes[k].address.depth < SUBDIVISION_DEPTH_LIMIT,
        split_entries(nodes, new, k, nodes[k].address),
    ensures
        keys_match(new),
{
    let a = nodes[k].address;
    lemma_child_keys(a);
    assert forall|x: u128| #[trigger] new.contains_key(x) implies node_key(new[x].address) == x
        && crate::plugins::quadtree_manager::node_ok(new[x]) by {
        if is_child_key(a, x) {
            lemma_child_entry(new, a, x);
        }
    }
}

proof fn lemma_split_parents(nodes: Map<u128, QuadtreeNode>, new: Map<u128, QuadtreeNode>, k: u128)
    requires
        keys_match(nodes),
        tree_shaped(nodes),
        nodes.contains_key(k),
        nodes[k].address.depth < SUBDIVISION_DEPTH_LIMIT,
        split_entries(nodes, new, k, nodes[k].address),
        forall|q: u8| q < 4 ==> !nodes.contains_key(#[trigger] child_key(nodes[k].address, q)),
    ensures
        forall|x: u128|
            #[trigger] new.contains_key(x) && new[x].address.depth > 0 ==> new.contains_key(parent_key(new[x].address))
                && new[parent_key(new[x].address)].state == ChunkState::Subdivided,
{
    assert forall|x: u128| #[trigger] new.contains_key(x) && new[x].address.depth > 0 implies new.contains_key(
        parent_key(new[x].address),
    ) && new[parent_key(new[x].address)].state == ChunkState::Subdivided by {
        lemma_split_parent_of(nodes, new, k, x);
    }
}

proof fn lemma_split_parent_of(nodes: Map<u128, QuadtreeNode>, new: Map<u128, QuadtreeNode>, k: u128, x: u128)
    requires
        keys_match(nodes),
        tree_shaped(nodes),
        nodes.contains_key(k),
        nodes[k].address.depth < SUBDIVISION_DEPTH_LIMIT,
        split_entries(nodes, new, k, nodes[k].address),
        forall|q: u8| q < 4 ==> !nodes.contains_key(#[trigger] child_key(nodes[k].address, q)),
        new.contains_key(x),
        new[x].address.depth > 0,
    ensures
        new.contains_key(parent_key(new[x].address)),
        new[parent_key(new[x].address)].state == ChunkState::Subdivided,
{
    let a = nodes[k].address;
    if is_child_key(a, x) {
        let q = lemma_child_entry(new, a, x);
        crate::plugins::quadtree::law_parent_of_child(a, q);
        assert(parent_key(new[x].address) == k);
    } else if x == k {
        let p = a.spec_parent()->0;
        lemma_depths_differ(p, a);
        lemma_depths_differ(p, a.spec_child(0));
        lemma_depths_differ(p, a.spec_child(1));
        lemma_depths_differ(p, a.spec_child(2));
        lemma_depths_differ(p, a.spec_child(3));
        assert(!is_child_key(a, parent_key(a)));
        assert(nodes.contains_key(parent_key(a)));
        assert(new.contains_key(parent_key(a)) == nodes.contains_key(parent_key(a)));
    } else {
        assert(new[x] == nodes[x]);
        let pk = parent_key(nodes[x].address);
        assert(nodes.contains_key(pk));
        assert(nodes[pk].state == ChunkState::Subdivided);
        assert(!is_child_key(a, pk));
        if pk == k {
            assert(new[pk].state == ChunkState::Subdivided);
        } else {
            assert(new.contains_key(pk) == nodes.contains_key(pk));
            assert(new[pk] == nodes[pk]);
        }
    }
}

proof fn lemma_split_children(nodes: Map<u128, QuadtreeNode>, new: Map<u128, QuadtreeNode>, k: u128)
    requires
        keys_match(nodes),
        tree_shaped(nodes),
        nodes.contains_key(k),
        split_entries(nodes, new, k, nodes[k].address),
    ensures
        forall|x: u128, q: u8|
            new.contains_key(x) && new[x].state == ChunkState::Subdivided && q < 4 ==> new.contains_key(
                #[trigger] child_key(new[x].address, q),
            ),
{
    let a = nodes[k].address;
    assert forall|x: u128, q: u8|
        new.contains_key(x) && new[x].state == ChunkState::Subdivided && q < 4 implies new.contains_key(
        #[trigger] child_key(new[x].address, q),
    ) by {
        if x == k {
        } else if is_child_key(a, x) {
            lemma_child_entry(new, a, x);
        } else {
            let ck = child_key(nodes[x].address, q);
            assert(nodes.contains_key(ck));
            if !is_child_key(a, ck) && ck != k {
                assert(new.contains_key(ck));
            }
        }
    }
}

/// The nodes after the subdivided chunk at `k` merges: it loses its four
/// children and becomes a leaf.
pub open spec fn merge_at(nodes: Map<u128, QuadtreeNode>, k: u128) -> Map<u128, QuadtreeNode> {
    without_children(nodes, nodes[k].address).insert(k, QuadtreeNode { state: ChunkState::Leaf, ..nodes[k] })
}

/// `new` is `nodes` where the node at `k` (address `a`) is a leaf without
/// children, and nothing else changed.
pub(crate) open spec fn merge_entries(nodes: Map<u128, QuadtreeNode>, new: Map<u128, QuadtreeNode>, k: u128, a: QuadtreeAddress) -> bool {
    &&& forall|q: u8| q < 4 ==> !new.contains_key(#[trigger] child_key(a, q))
    &&& new.contains_key(k) && new[k] == (QuadtreeNode { state: ChunkState::Leaf, ..nodes[k] })
    &&& forall|x: u128|
        x != k && !is_child_key(a, x) ==> (#[trigger] new.contains_key(x) == nodes.contains_key(x)) && new[x]
            == nodes[x]
}

pub(crate) proof fn lemma_merge_entries(nodes: Map<u128, QuadtreeNode>, k: u128)
    requires
        keys_match(nodes),
        nodes.contains_key(k),
    ensures
        merge_entries(nodes, merge_at(nodes, k), k, nodes[k].address),
{
    let a = nodes[k].address;
    lemma_child_keys(a);
}

/// A subdivided chunk whose children are all leaves merges without
/// breaking the quadtree shape, and no node becomes subdivided.
pub(crate) proof fn lemma_merge_keeps_shape(nodes: Map<u128, QuadtreeNode>, k: u128)
    requires
        keys_match(nodes),
        tree_shaped(nodes),
        nodes.contains_key(k),
        nodes[k].state == ChunkState::Subdivided,
        all_children_are_leaves(nodes, nodes[k].address),
    ensures
        keys_match(merge_at(nodes, k)),
        tree_shaped(merge_at(nodes, k)),
        forall|x: u128|
            #[trigger] merge_at(nodes, k).contains_key(x) && merge_at(nodes, k)[x].state == ChunkState::Subdivided
                ==> nodes.contains_key(x) && nodes[x].state == ChunkState::Subdivided,
{
    let new = merge_at(nodes, k);
    let a = nodes[k].address;
    lemma_merge_entries(nodes, k);
    lemma_child_keys(a);
    assert forall|x: u128| #[trigger] new.contains_key(x) implies node_key(new[x].address) == x
        && crate::plugins::quadtree_manager::node_ok(new[x]) by {
        if x != k {
            assert(!is_child_key(a, x));
        }
    }
    assert forall|x: u128| new.contains_key(x) && new[x].address.depth > 0 implies new.contains_key(
        #[trigger] parent_key(new[x].address),
    ) && new[parent_key(new[x].address)].state == ChunkState::Subdivided by {
        lemma_merge_parent_of(nodes, new, k, x);
    }
    assert forall|x: u128, q: u8|
        new.contains_key(x) && new[x].state == ChunkState::Subdivided && q < 4 implies new.contains_key(
        #[trigger] child_key(new[x].address, q),
    ) by {
        lemma_merge_child_of(nodes, new, k, x, q);
    }
    assert forall|x: u128|
        #[trigger] new.contains_key(x) && new[x].state == ChunkState::Subdivided implies nodes.contains_key(x)
        && nodes[x].state == ChunkState::Subdivided by {
        if x != k {
            assert(!is_child_key(a, x));
        }
    }
}

proof fn lemma_merge_parent_of(nodes: Map<u128, QuadtreeNode>, new: Map<u128, QuadtreeNode>, k: u128, x: u128)
    requires
        keys_match(nodes),
        tree_shaped(nodes),
        nodes.contains_key(k),
        nodes[k].state == ChunkState::Subdivided,
        all_children_are_leaves(nodes, nodes[k].address),
        merge_entries(nodes, new, k, nodes[k].address),
        new.contains_key(x),
        new[x].address.depth > 0,
    ensures
        new.contains_key(parent_key(new[x].address)),
        new[parent_key(new[x].address)].state == ChunkState::Subdivided,
{
    let a = nodes[k].address;
    lemma_child_keys(a);
    if x == k {
        let p = a.spec_parent()->0;
        lemma_depths_differ(p, a);
        lemma_depths_differ(p, a.spec_child(0));
        lemma_depths_differ(p, a.spec_child(1));
        lemma_depths_differ(p, a.spec_child(2));
        lemma_depths_differ(p, a.spec_child(3));
        assert(!is_child_key(a, parent_key(a)));
        assert(nodes.contains_key(parent_key(a)));
        assert(new.contains_key(parent_key(a)) == nodes.contains_key(parent_key(a)));
    } else {
        assert(!is_child_key(a, x));
        assert(new[x] == nodes[x]);
        let c = nodes[x].address;
        let pk = parent_key(c);
        assert(nodes.contains_key(pk));
        assert(nodes[pk].state == ChunkState::Subdivided);
        if is_child_key(a, pk) {
            if pk == child_key(a, 0) {
                assert(nodes[child_key(a, 0u8)].state == ChunkState::Leaf);
            } else if pk == child_key(a, 1) {
                assert(nodes[child_key(a, 1u8)].state == ChunkState::Leaf);
            } else if pk == child_key(a, 2) {
                assert(nodes[child_key(a, 2u8)].state == ChunkState::Leaf);
            } else {
                assert(nodes[child_key(a, 3u8)].state == ChunkState::Leaf);
            }
        }
        if pk == k {
            lemma_child_of_parent(c);
            law_node_key_injective(c.spec_parent()->0, a);
            let q = (c.morton % 4) as u8;
            assert(c == a.spec_child(q));
            assert(x == child_key(a, q));
            assert(is_child_key(a, x));
        }
        assert(new.contains_key(pk) == nodes.contains_key(pk));
    }
}

proof fn lemma_merge_child_of(nodes: Map<u128, QuadtreeNode>, new: Map<u128, QuadtreeNode>, k: u128, x: u128, q: u8)
    requires
        keys_match(nodes),
        tree_shaped(nodes),
        nodes.contains_key(k),
        merge_entries(nodes, new, k, nodes[k].address),
        new.contains_key(x),
        new[x].state == ChunkState::Subdivided,
        q < 4,
    ensures
        new.contains_key(child_key(new[x].address, q)),
{
    let a = nodes[k].address;
    assert(x != k);
    if is_child_key(a, x) {
        if x == child_key(a, 0) {
            assert(!new.contains_key(child_key(a, 0u8)));
        } else if x == child_key(a, 1) {
            assert(!new.contains_key(child_key(a, 1u8)));
        } else if x == child_key(a, 2) {
            assert(!new.contains_key(child_key(a, 2u8)));
        } else {
            assert(!new.contains_key(child_key(a, 3u8)));
        }
    }
    assert(new[x] == nodes[x]);
    let b = nodes[x].address;
    let ck = child_key(b, q);
    assert(nodes.contains_key(ck));
    if is_child_key(a, ck) {
        let q2: u8 = if ck == child_key(a, 0) {
            0
        } else if ck == child_key(a, 1) {
            1
        } else if ck == child_key(a, 2) {
            2
        } else {
            3
        };
        law_node_key_injective(b.spec_child(q), a.spec_child(q2));
        crate::plugins::quadtree::law_parent_of_child(a, q2);
        crate::plugins::quadtree::law_parent_of_child(b, q);
        assert(b == a);
        assert(x == k);
    }
    if ck != k {
        assert(new.contains_key(ck) == nodes.contains_key(ck));
    }
}

/// No two entries are for the same chunk.
pub open spec fn distinct_chunks(s: Seq<(QuadtreeAddress, u32)>) -> bool {
    forall|i: int, j: int| 0 <= i < j < s.len() ==> node_key(s[i].0) != node_key(s[j].0)
}

/// Sorting keeps entries for distinct chunks distinct.
pub(crate) proof fn lemma_sort_distinct(s: Seq<(QuadtreeAddress, u32)>)
    requires
        distinct_chunks(s),
    ensures
        distinct_chunks(sort_by_distance(s)),
    decreases s.len(),
{
    if s.len() > 0 {
        let rest = s.drop_last();
        let e = s.last();
        lemma_sort_distinct(rest);
        lemma_sort_members(rest);
        let sorted = sort_by_distance(rest);
        lemma_insertion_point_bounds(sorted, e.1);
        let p = insertion_point(sorted, e.1);
        let out = sorted.insert(p, e);
        sorted.insert_ensures(p, e);
        assert(out == sort_by_distance(s));
        assert forall|i: int| 0 <= i < sorted.len() implies node_key(#[trigger] sorted[i].0) != node_key(e.0) by {
            assert(rest.contains(sorted[i]));
            let w = choose|w: int| 0 <= w < rest.len() && rest[w] == sorted[i];
            assert(s[w] == sorted[i]);
            assert(s[s.len() - 1] == e);
        }
        assert forall|i: int, j: int| 0 <= i < j < out.len() implies node_key(out[i].0) != node_key(out[j].0) by {
            if j < p {
                assert(out[i] == sorted[i] && out[j] == sorted[j]);
            } else if j == p {
                assert(out[i] == sorted[i]);
            } else if i < p {
                assert(out[i] == sorted[i] && out[j] == sorted[j - 1]);
            } else if i == p {
                assert(out[j] == sorted[j - 1]);
            } else {
                assert(out[i] == sorted[i - 1] && out[j] == sorted[j - 1]);
            }
        }
    }
}

/// A candidate to split: if its node is still there it is not subdivided,
/// and it lies above the subdivision limit.
pub open spec fn splittable(nodes: Map<u128, QuadtreeNode>, c: QuadtreeAddress) -> bool {
    &&& nodes.contains_key(node_key(c)) ==> nodes[node_key(c)].state != ChunkState::Subdivided
    &&& c.depth < SUBDIVISION_DEPTH_LIMIT
}

/// The first pass keeps the quadtree shape, and leaves its candidates
/// splittable, each once, from the keys walked.
pub(crate) proof fn lemma_pass_one_shape(nodes: Map<u128, QuadtreeNode>, order: Seq<u128>, mt: Map<u128, NodeMetrics>, max_depth: u8)
    requires
        keys_match(nodes),
        tree_shaped(nodes),
        order.no_duplicates(),
    ensures
        keys_match(pass_one(nodes, order, mt, max_depth).nodes),
        tree_shaped(pass_one(nodes, order, mt, max_depth).nodes),
        forall|i: int|
            0 <= i < pass_one(nodes, order, mt, max_depth).candidates.len() ==> splittable(
                pass_one(nodes, order, mt, max_depth).nodes,
                #[trigger] pass_one(nodes, order, mt, max_depth).candidates[i].0,
            ) && order.contains(node_key(pass_one(nodes, order, mt, max_depth).candidates[i].0)),
        distinct_chunks(pass_one(nodes, order, mt, max_depth).candidates),
    decreases order.len(),
{
    if order.len() > 0 {
        let prefix = order.drop_last();
        let k = order.last();
        assert(prefix.no_duplicates());
        lemma_pass_one_shape(nodes, prefix, mt, max_depth);
        let p = pass_one(nodes, prefix, mt, max_depth);
        let r = pass_one(nodes, order, mt, max_depth);
        assert(!prefix.contains(k)) by {
            if prefix.contains(k) {
                let w = choose|w: int| 0 <= w < prefix.len() && prefix[w] == k;
                assert(order[w] == order[order.len() - 1]);
            }
        }
        assert forall|i: int| 0 <= i < p.candidates.len() implies order.contains(
            node_key(#[trigger] p.candidates[i].0),
        ) by {
            let w = choose|w: int| 0 <= w < prefix.len() && prefix[w] == node_key(p.candidates[i].0);
            assert(order[w] == prefix[w]);
        }
        if p.nodes.contains_key(k) {
            let node = p.nodes[k];
            let a = node.address;
            if node.state == ChunkState::Subdivided {
                if crate::plugins::quadtree_manager::wants_merge(a, mt) && all_children_are_leaves(p.nodes, a) {
                    lemma_merge_keeps_shape(p.nodes, k);
                    assert(r.nodes == merge_at(p.nodes, k));
                    assert forall|i: int| 0 <= i < r.candidates.len() implies splittable(
                        r.nodes,
                        #[trigger] r.candidates[i].0,
                    ) by {
                        assert(r.candidates[i] == p.candidates[i]);
                        assert(splittable(p.nodes, p.candidates[i].0));
                    }
                }
            } else if crate::plugins::quadtree_manager::wants_subdivision(a, mt, max_depth) {
                assert(node_key(a) == k);
                assert forall|i: int| 0 <= i < r.candidates.len() implies splittable(
                    r.nodes,
                    #[trigger] r.candidates[i].0,
                ) && order.contains(node_key(r.candidates[i].0)) by {
                    if i < p.candidates.len() {
                        assert(r.candidates[i] == p.candidates[i]);
                    } else {
                        assert(r.candidates[i].0 == a);
                        assert(order[order.len() - 1] == k);
                    }
                }
                assert forall|i: int, j: int| 0 <= i < j < r.candidates.len() implies node_key(r.candidates[i].0)
                    != node_key(r.candidates[j].0) by {
                    if j == p.candidates.len() {
                        assert(r.candidates[i] == p.candidates[i]);
                        assert(prefix.contains(node_key(p.candidates[i].0))) by {
                            let w = choose|w: int|
                                0 <= w < prefix.len() && prefix[w] == node_key(p.candidates[i].0);
                        }
                    } else {
                        assert(r.candidates[i] == p.candidates[i]);
                        assert(r.candidates[j] == p.candidates[j]);
                    }
                }
            }
        }
    }
}

/// The second pass keeps the quadtree shape when its candidates are
/// splittable and each chunk is split once; the only newly subdivided
/// nodes are the candidates'.
pub(crate) proof fn lemma_pass_two_shape(p: UpdatePass, chosen: Seq<(QuadtreeAddress, u32)>, mt: Map<u128, NodeMetrics>)
    requires
        keys_match(p.nodes),
        tree_shaped(p.nodes),
        forall|i: int| 0 <= i < chosen.len() ==> splittable(p.nodes, #[trigger] chosen[i].0),
        distinct_chunks(chosen),
    ensures
        keys_match(pass_two(p, chosen, mt).nodes),
        tree_shaped(pass_two(p, chosen, mt).nodes),
        forall|x: u128|
            #[trigger] pass_two(p, chosen, mt).nodes.contains_key(x) && pass_two(p, chosen, mt).nodes[x].state
                == ChunkState::Subdivided ==> (p.nodes.contains_key(x) && p.nodes[x].state == ChunkState::Subdivided)
                || exists|i: int| 0 <= i < chosen.len() && node_key(#[trigger] chosen[i].0) == x,
    decreases chosen.len(),
{
    if chosen.len() > 0 {
        let prefix = chosen.drop_last();
        let c = chosen.last();
        assert forall|i: int| 0 <= i < prefix.len() implies splittable(p.nodes, #[trigger] prefix[i].0) by {
            assert(prefix[i] == chosen[i]);
        }
        lemma_pass_two_shape(p, prefix, mt);
        let q = pass_two(p, prefix, mt);
        let r = pass_two(p, chosen, mt);
        let k = node_key(c.0);
        assert(splittable(p.nodes, chosen[chosen.len() - 1].0));
        if q.nodes.contains_key(k) {
            if q.nodes[k].state == ChunkState::Subdivided {
                if exists|i: int| 0 <= i < prefix.len() && node_key(#[trigger] prefix[i].0) == k {
                    let i = choose|i: int| 0 <= i < prefix.len() && node_key(#[trigger] prefix[i].0) == k;
                    assert(prefix[i] == chosen[i]);
                    assert(node_key(chosen[i].0) != node_key(chosen[chosen.len() - 1].0));
                }
            }
            law_node_key_injective(q.nodes[k].address, c.0);
            lemma_split_keeps_shape(q.nodes, k);
            assert(r.nodes == split_at(q.nodes, k));
            assert forall|x: u128|
                #[trigger] r.nodes.contains_key(x) && r.nodes[x].state == ChunkState::Subdivided implies (
                p.nodes.contains_key(x) && p.nodes[x].state == ChunkState::Subdivided) || exists|i: int|
                0 <= i < chosen.len() && node_key(#[trigger] chosen[i].0) == x by {
                if x == k {
                    assert(node_key(chosen[chosen.len() - 1].0) == x);
                } else if exists|i: int| 0 <= i < prefix.len() && node_key(#[trigger] prefix[i].0) == x {
                    let i = choose|i: int| 0 <= i < prefix.len() && node_key(#[trigger] prefix[i].0) == x;
                    assert(prefix[i] == chosen[i]);
                }
            }
        } else {
            assert forall|x: u128|
                #[trigger] r.nodes.contains_key(x) && r.nodes[x].state == ChunkState::Subdivided implies (
                p.nodes.contains_key(x) && p.nodes[x].state == ChunkState::Subdivided) || exists|i: int|
                0 <= i < chosen.len() && node_key(#[trigger] chosen[i].0) == x by {
                if exists|i: int| 0 <= i < prefix.len() && node_key(#[trigger] prefix[i].0) == x {
                    let i = choose|i: int| 0 <= i < prefix.len() && node_key(#[trigger] prefix[i].0) == x;
                    assert(prefix[i] == chosen[i]);
                }
            }
        }
    }
}

/// Law: an update keeps the quadtree shape. If every chunk below the face
/// roots hangs under a subdivided parent and every subdivided chunk has its
/// four children before an update, the same holds after it, whatever the
/// metrics, the order in which the nodes are walked and the budget.
pub proof fn law_update_keeps_tree_shape(
    nodes: Map<u128, QuadtreeNode>,
    order: Seq<u128>,
    mt: Map<u128, NodeMetrics>,
    max_depth: u8,
    budget: usize,
)
    requires
        keys_match(nodes),
        tree_shaped(nodes),
        order.no_duplicates(),
    ensures
        tree_shaped(spec_update(nodes, order, mt, max_depth, budget).0),
{
    lemma_pass_one_shape(nodes, order, mt, max_depth);
    let first = pass_one(nodes, order, mt, max_depth);
    let sorted = sort_by_distance(first.candidates);
    let chosen = sorted.take(subdivision_limit(budget, sorted.len()) as int);
    lemma_sort_distinct(first.candidates);
    lemma_sort_members(first.candidates);
    assert forall|i: int| 0 <= i < chosen.len() implies splittable(first.nodes, #[trigger] chosen[i].0) by {
        assert(chosen[i] == sorted[i]);
        assert(first.candidates.contains(sorted[i]));
        let w = choose|w: int| 0 <= w < first.candidates.len() && first.candidates[w] == sorted[i];
        assert(splittable(first.nodes, first.candidates[w].0));
    }
    assert(distinct_chunks(chosen)) by {
        assert forall|i: int, j: int| 0 <= i < j < chosen.len() implies node_key(chosen[i].0) != node_key(
            chosen[j].0,
        ) by {
            assert(chosen[i] == sorted[i] && chosen[j] == sorted[j]);
        }
    }
    lemma_pass_two_shape(first, chosen, mt);
}

/// Law: recording or clearing the mesh of a chunk keeps the quadtree shape,
/// and so does marking a chunk that is not subdivided as generating or as a
/// leaf.
pub proof fn law_marks_keep_tree_shape(
    nodes: Map<u128, QuadtreeNode>,
    a: QuadtreeAddress,
    entity: Option<u64>,
    state: ChunkState,
)
    requires
        tree_shaped(nodes),
    ensures
        nodes.contains_key(node_key(a)) ==> tree_shaped(
            nodes.insert(node_key(a), QuadtreeNode { entity, ..nodes[node_key(a)] }),
        ),
        state != ChunkState::Subdivided && !(nodes.contains_key(node_key(a)) && nodes[node_key(a)].state
            == ChunkState::Subdivided) ==> tree_shaped(with_state(nodes, a, state)),
{
    let k = node_key(a);
    if nodes.contains_key(k) {
        let m = nodes.insert(k, QuadtreeNode { entity, ..nodes[k] });
        assert forall|x: u128| m.contains_key(x) && m[x].address.depth > 0 implies m.contains_key(
            #[trigger] parent_key(m[x].address),
        ) && m[parent_key(m[x].address)].state == ChunkState::Subdivided by {
            assert(m[x].address == nodes[x].address);
            assert(nodes.contains_key(parent_key(nodes[x].address)));
        }
        assert forall|x: u128, q: u8|
            m.contains_key(x) && m[x].state == ChunkState::Subdivided && q < 4 implies m.contains_key(
            #[trigger] child_key(m[x].address, q),
        ) by {
            assert(nodes.contains_key(child_key(nodes[x].address, q)));
        }
        if state != ChunkState::Subdivided && nodes[k].state != ChunkState::Subdivided {
            let w = with_state(nodes, a, state);
            assert forall|x: u128| w.contains_key(x) && w[x].address.depth > 0 implies w.contains_key(
                #[trigger] parent_key(w[x].address),
            ) && w[parent_key(w[x].address)].state == ChunkState::Subdivided by {
                assert(w[x].address == nodes[x].address);
                assert(nodes.contains_key(parent_key(nodes[x].address)));
            }
            assert forall|x: u128, q: u8|
                w.contains_key(x) && w[x].state == ChunkState::Subdivided && q < 4 implies w.contains_key(
                #[trigger] child_key(w[x].address, q),
            ) by {
                assert(nodes.contains_key(child_key(nodes[x].address, q)));
            }
        }
    }
}

/// An entry of the children of `a` with a mesh is one of its children, and
/// has a mesh.
proof fn lemma_children_with_entities(nodes: Map<u128, QuadtreeNode>, a: QuadtreeAddress, i: int) -> (q: u8)
    requires
        0 <= i < children_with_entities(nodes, a).len(),
    ensures
        q < 4,
        children_with_entities(nodes, a)[i] == a.spec_child(q),
        nodes[child_key(a, q)].entity is Some,
{
    let s0 = crate::plugins::quadtree_manager::if_meshed(nodes, a.spec_child(0));
    let s1 = crate::plugins::quadtree_manager::if_meshed(nodes, a.spec_child(1));
    let s2 = crate::plugins::quadtree_manager::if_meshed(nodes, a.spec_child(2));
    let s3 = crate::plugins::quadtree_manager::if_meshed(nodes, a.spec_child(3));
    let all = children_with_entities(nodes, a);
    assert(all == s0 + s1 + s2 + s3);
    if i < s0.len() {
        assert(all[i] == s0[i]);
        0
    } else if i < s0.len() + s1.len() {
        assert(all[i] == s1[i - s0.len()]);
        1
    } else if i < s0.len() + s1.len() + s2.len() {
        assert(all[i] == s2[i - s0.len() - s1.len()]);
        2
    } else {
        assert(all[i] == s3[i - s0.len() - s1.len() - s2.len()]);
        3
    }
}

/// What the first pass does to the despawned chunks: each was in the tree
/// with a mesh, is gone, and its parent was walked and is no candidate.
proof fn lemma_pass_one_despawns(nodes: Map<u128, QuadtreeNode>, order: Seq<u128>, mt: Map<u128, NodeMetrics>, max_depth: u8)
    requires
        keys_match(nodes),
        tree_shaped(nodes),
        order.no_duplicates(),
    ensures
        ({
            let r = pass_one(nodes, order, mt, max_depth);
            &&& forall|x: u128|
                #[trigger] r.nodes.contains_key(x) ==> nodes.contains_key(x) && r.nodes[x].entity == nodes[x].entity
                    && r.nodes[x].address == nodes[x].address
            &&& forall|i: int|
                0 <= i < r.despawns.len() ==> {
                    let x = node_key(#[trigger] r.despawns[i]);
                    &&& nodes.contains_key(x)
                    &&& nodes[x].entity is Some
                    &&& !r.nodes.contains_key(x)
                    &&& r.despawns[i].depth > 0
                    &&& order.contains(parent_key(r.despawns[i]))
                    &&& forall|j: int|
                        0 <= j < r.candidates.len() ==> parent_key(r.despawns[i]) != node_key(
                            #[trigger] r.candidates[j].0,
                        )
                }
        }),
    decreases order.len(),
{
    if order.len() > 0 {
        let prefix = order.drop_last();
        let k = order.last();
        assert(prefix.no_duplicates());
        lemma_pass_one_despawns(nodes, prefix, mt, max_depth);
        lemma_pass_one_shape(nodes, prefix, mt, max_depth);
        let p = pass_one(nodes, prefix, mt, max_depth);
        let r = pass_one(nodes, order, mt, max_depth);
        assert(!prefix.contains(k)) by {
            if prefix.contains(k) {
                let w = choose|w: int| 0 <= w < prefix.len() && prefix[w] == k;
                assert(order[w] == order[order.len() - 1]);
            }
        }
        assert(forall|x: u128| prefix.contains(x) ==> order.contains(x)) by {
            assert forall|x: u128| prefix.contains(x) implies order.contains(x) by {
                let w = choose|w: int| 0 <= w < prefix.len() && prefix[w] == x;
                assert(order[w] == x);
            }
        }
        assert(order.contains(k)) by {
            assert(order[order.len() - 1] == k);
        }
        if p.nodes.contains_key(k) {
            let node = p.nodes[k];
            let a = node.address;
            if node.state == ChunkState::Subdivided {
                if wants_merge(a, mt) && all_children_are_leaves(p.nodes, a) {
                    lemma_merge_entries(p.nodes, k);
                    lemma_child_keys(a);
                    assert(r.nodes == merge_at(p.nodes, k));
                    assert forall|x: u128| #[trigger] r.nodes.contains_key(x) implies nodes.contains_key(x)
                        && r.nodes[x].entity == nodes[x].entity && r.nodes[x].address == nodes[x].address by {
                        if x != k {
                            assert(!is_child_key(a, x));
                        }
                    }
                    let added = children_with_entities(p.nodes, a);
                    assert(r.despawns == p.despawns + added);
                    assert forall|i: int| 0 <= i < r.despawns.len() implies {
                        let x = node_key(#[trigger] r.despawns[i]);
                        &&& nodes.contains_key(x)
                        &&& nodes[x].entity is Some
                        &&& !r.nodes.contains_key(x)
                        &&& r.despawns[i].depth > 0
                        &&& order.contains(parent_key(r.despawns[i]))
                        &&& forall|j: int|
                            0 <= j < r.candidates.len() ==> parent_key(r.despawns[i]) != node_key(
                                #[trigger] r.candidates[j].0,
                            )
                    } by {
                        if i < p.despawns.len() {
                            assert(r.despawns[i] == p.despawns[i]);
                            let x = node_key(p.despawns[i]);
                            if r.nodes.contains_key(x) {
                                assert(x != k) by {
                                    if x == k {
                                        assert(p.nodes.contains_key(k));
                                    }
                                }
                                assert(!is_child_key(a, x)) by {
                                    if is_child_key(a, x) {
                                        assert(p.nodes.contains_key(x));
                                    }
                                }
                            }
                        } else {
                            let q = lemma_children_with_entities(p.nodes, a, i - p.despawns.len());
                            let c = a.spec_child(q);
                            assert(r.despawns[i] == c);
                            crate::plugins::quadtree::law_parent_of_child(a, q);
                            assert(parent_key(c) == k);
                            assert(p.nodes.contains_key(child_key(a, q)));
                            assert forall|j: int| 0 <= j < r.candidates.len() implies parent_key(c) != node_key(
                                #[trigger] r.candidates[j].0,
                            ) by {
                                assert(r.candidates[j] == p.candidates[j]);
                                assert(prefix.contains(node_key(p.candidates[j].0)));
                            }
                        }
                    }
                }
            } else if wants_subdivision(a, mt, max_depth) {
                assert(node_key(a) == k);
                assert forall|i: int| 0 <= i < r.despawns.len() implies forall|j: int|
                    0 <= j < r.candidates.len() ==> parent_key(#[trigger] r.despawns[i]) != node_key(
                        #[trigger] r.candidates[j].0,
                    ) by {
                    assert(r.despawns[i] == p.despawns[i]);
                    assert forall|j: int| 0 <= j < r.candidates.len() implies parent_key(r.despawns[i])
                        != node_key(#[trigger] r.candidates[j].0) by {
                        if j < p.candidates.len() {
                            assert(r.candidates[j] == p.candidates[j]);
                        } else {
                            assert(r.candidates[j].0 == a);
                            assert(prefix.contains(parent_key(p.despawns[i])));
                        }
                    }
                }
            }
        }
    }
}

/// The second pass keeps the despawned chunks, and the only keys it adds
/// are those of children of its candidates.
proof fn lemma_pass_two_new_keys(p: UpdatePass, chosen: Seq<(QuadtreeAddress, u32)>, mt: Map<u128, NodeMetrics>)
    requires
        keys_match(p.nodes),
        tree_shaped(p.nodes),
        forall|i: int| 0 <= i < chosen.len() ==> splittable(p.nodes, #[trigger] chosen[i].0),
        distinct_chunks(chosen),
    ensures
        pass_two(p, chosen, mt).despawns == p.despawns,
        forall|x: u128|
            #[trigger] pass_two(p, chosen, mt).nodes.contains_key(x) ==> p.nodes.contains_key(x) || exists|j: int, qd: u8|
                0 <= j < chosen.len() && qd < 4 && chosen[j].0.wf() && chosen[j].0.depth < 31 && x
                    == #[trigger] child_key(chosen[j].0, qd),
    decreases chosen.len(),
{
    if chosen.len() > 0 {
        let prefix = chosen.drop_last();
        let c = chosen.last();
        assert forall|i: int| 0 <= i < prefix.len() implies splittable(p.nodes, #[trigger] prefix[i].0) by {
            assert(prefix[i] == chosen[i]);
        }
        lemma_pass_two_new_keys(p, prefix, mt);
        lemma_pass_two_shape(p, prefix, mt);
        let q = pass_two(p, prefix, mt);
        let r = pass_two(p, chosen, mt);
        let k = node_key(c.0);
        assert(splittable(p.nodes, chosen[chosen.len() - 1].0));
        if q.nodes.contains_key(k) {
            let a = q.nodes[k].address;
            law_node_key_injective(a, c.0);
            lemma_split_entries(q.nodes, k);
            assert(r.nodes == split_at(q.nodes, k));
            assert forall|x: u128| #[trigger] r.nodes.contains_key(x) implies p.nodes.contains_key(x) || exists|
                j: int,
                qd: u8,
            |
                0 <= j < chosen.len() && qd < 4 && chosen[j].0.wf() && chosen[j].0.depth < 31 && x
                    == #[trigger] child_key(chosen[j].0, qd) by {
                if is_child_key(a, x) {
                    let last = chosen.len() - 1;
                    assert(chosen[last] == c);
                    if x == child_key(a, 0) {
                        assert(x == child_key(chosen[last].0, 0u8));
                    } else if x == child_key(a, 1) {
                        assert(x == child_key(chosen[last].0, 1u8));
                    } else if x == child_key(a, 2) {
                        assert(x == child_key(chosen[last].0, 2u8));
                    } else {
                        assert(x == child_key(chosen[last].0, 3u8));
                    }
                } else if x != k {
                    assert(q.nodes.contains_key(x));
                    if !p.nodes.contains_key(x) {
                        let (j, qd) = choose|j: int, qd: u8|
                            0 <= j < prefix.len() && qd < 4 && prefix[j].0.wf() && prefix[j].0.depth < 31
                                && x == #[trigger] child_key(prefix[j].0, qd);
                        assert(prefix[j] == chosen[j]);
                    }
                }
            }
        } else {
            assert forall|x: u128| #[trigger] r.nodes.contains_key(x) implies p.nodes.contains_key(x) || exists|
                j: int,
                qd: u8,
            |
                0 <= j < chosen.len() && qd < 4 && chosen[j].0.wf() && chosen[j].0.depth < 31 && x
                    == #[trigger] child_key(chosen[j].0, qd) by {
                if !p.nodes.contains_key(x) {
                    let (j, qd) = choose|j: int, qd: u8|
                        0 <= j < prefix.len() && qd < 4 && prefix[j].0.wf() && prefix[j].0.depth < 31 && x
                            == #[trigger] child_key(prefix[j].0, qd);
                    assert(prefix[j] == chosen[j]);
                }
            }
        }
    }
}

/// Law: the chunks that an update despawns all had a mesh in the tree
/// before it, and none of them is in the tree after it.
pub proof fn law_despawned_chunks_leave(
    nodes: Map<u128, QuadtreeNode>,
    order: Seq<u128>,
    mt: Map<u128, NodeMetrics>,
    max_depth: u8,
    budget: usize,
)
    requires
        keys_match(nodes),
        tree_shaped(nodes),
        order.no_duplicates(),
    ensures
        ({
            let (new, _, despawned) = spec_update(nodes, order, mt, max_depth, budget);
            forall|i: int|
                0 <= i < despawned.len() ==> nodes.contains_key(node_key(#[trigger] despawned[i]))
                    && nodes[node_key(despawned[i])].entity is Some && !new.contains_key(node_key(despawned[i]))
        }),
{
    lemma_pass_one_despawns(nodes, order, mt, max_depth);
    lemma_pass_one_shape(nodes, order, mt, max_depth);
    let first = pass_one(nodes, order, mt, max_depth);
    let sorted = sort_by_distance(first.candidates);
    let chosen = sorted.take(subdivision_limit(budget, sorted.len()) as int);
    lemma_sort_distinct(first.candidates);
    lemma_sort_members(first.candidates);
    assert forall|i: int| 0 <= i < chosen.len() implies splittable(first.nodes, #[trigger] chosen[i].0) by {
        assert(chosen[i] == sorted[i]);
        assert(first.candidates.contains(sorted[i]));
        let w = choose|w: int| 0 <= w < first.candidates.len() && first.candidates[w] == sorted[i];
        assert(splittable(first.nodes, first.candidates[w].0));
    }
    assert(distinct_chunks(chosen)) by {
        assert forall|i: int, j: int| 0 <= i < j < chosen.len() implies node_key(chosen[i].0) != node_key(
            chosen[j].0,
        ) by {
            assert(chosen[i] == sorted[i] && chosen[j] == sorted[j]);
        }
    }
    lemma_pass_two_new_keys(first, chosen, mt);
    let second = pass_two(first, chosen, mt);
    assert forall|i: int| 0 <= i < second.despawns.len() implies nodes.contains_key(
        node_key(#[trigger] second.despawns[i]),
    ) && nodes[node_key(second.despawns[i])].entity is Some && !second.nodes.contains_key(
        node_key(second.despawns[i]),
    ) by {
        let d = first.despawns[i];
        let x = node_key(d);
        assert(second.despawns[i] == d);
        if second.nodes.contains_key(x) {
            let (j, qd) = choose|j: int, qd: u8|
                0 <= j < chosen.len() && qd < 4 && chosen[j].0.wf() && chosen[j].0.depth < 31 && x
                    == #[trigger] child_key(chosen[j].0, qd);
            let c = chosen[j].0;
            law_node_key_injective(d, c.spec_child(qd));
            crate::plugins::quadtree::law_parent_of_child(c, qd);
            assert(parent_key(d) == node_key(c));
            assert(first.candidates.contains(sorted[j]));
            let w = choose|w: int| 0 <= w < first.candidates.len() && first.candidates[w] == sorted[j];
            assert(chosen[j] == sorted[j]);
            assert(parent_key(first.despawns[i]) != node_key(first.candidates[w].0));
        }
    }
}

} // verus!
