//! What updates do to the levels of a chunk quadtree: the face roots stay
//! where they are, and no chunk grows deeper than the maximum depth.
use vstd::prelude::*;
use crate::plugins::quadtree::QuadtreeAddress;
use crate::plugins::quadtree_manager::{
    law_initialized_tree, with_roots, SUBDIVISION_DEPTH_LIMIT, child_key, keys_match, lemma_sort_members, pass_one, pass_two, sort_by_distance, spec_update,
    subdivision_limit, law_node_key_injective, node_key, NodeMetrics, UpdatePass, ChunkState, QuadtreeNode,
};
use crate::plugins::quadtree_shape::{
    distinct_chunks, is_child_key, lemma_child_entry, lemma_child_keys, lemma_depths_differ,
    lemma_merge_entries, lemma_pass_one_shape, lemma_pass_two_shape, lemma_sort_distinct, lemma_split_entries,
    law_unsplit_chunk_childless, law_update_keeps_tree_shape, merge_at, split_at, splittable, tree_shaped,
};

verus! {

/// The face roots of a tree: the address of each node at depth 0, by key.
pub open spec fn roots_of(nodes: Map<u128, QuadtreeNode>) -> Map<u128, QuadtreeAddress> {
    Map::new(|k: u128| nodes.contains_key(k) && nodes[k].address.depth == 0, |k: u128| nodes[k].address)
}

/// No node lies deeper than `d`.
pub open spec fn depth_bounded(nodes: Map<u128, QuadtreeNode>, d: u8) -> bool {
    forall|k: u128| #[trigger] nodes.contains_key(k) ==> nodes[k].address.depth <= d
}

/// A key under which a child of `a` is stored never holds a root.
proof fn lemma_child_slot_not_root(nodes: Map<u128, QuadtreeNode>, a: QuadtreeAddress, x: u128)
    requires
        keys_match(nodes),
        a.depth < 31,
        is_child_key(a, x),
        nodes.contains_key(x),
    ensures
        nodes[x].address.depth != 0,
{
    let r = nodes[x].address;
    if r.depth == 0 {
        if x == child_key(a, 0) {
            lemma_depths_differ(r, a.spec_child(0));
        } else if x == child_key(a, 1) {
            lemma_depths_differ(r, a.spec_child(1));
        } else if x == child_key(a, 2) {
            lemma_depths_differ(r, a.spec_child(2));
        } else {
            lemma_depths_differ(r, a.spec_child(3));
        }
    }
}

/// A merge keeps the roots and makes no node deeper.
proof fn lemma_merge_levels(nodes: Map<u128, QuadtreeNode>, k: u128, d: u8)
    requires
        keys_match(nodes),
        nodes.contains_key(k),
    ensures
        roots_of(merge_at(nodes, k)) == roots_of(nodes),
        depth_bounded(nodes, d) ==> depth_bounded(merge_at(nodes, k), d),
{
    let new = merge_at(nodes, k);
    let a = nodes[k].address;
    lemma_merge_entries(nodes, k);
    lemma_child_keys(a);
    assert forall|x: u128| #[trigger] new.contains_key(x) implies nodes.contains_key(x) && new[x].address
        == nodes[x].address by {
        if x != k {
            assert(!is_child_key(a, x));
        }
    }
    assert forall|x: u128| nodes.contains_key(x) && #[trigger] nodes[x].address.depth == 0 implies new.contains_key(
        x,
    ) by {
        if x != k && is_child_key(a, x) {
            lemma_child_slot_not_root(nodes, a, x);
        }
    }
    assert(roots_of(new) =~= roots_of(nodes));
}

/// A split of a node above depth `d` keeps the roots and leaves no node
/// deeper than `d`, if none was.
proof fn lemma_split_levels(nodes: Map<u128, QuadtreeNode>, k: u128, d: u8)
    requires
        keys_match(nodes),
        nodes.contains_key(k),
    ensures
        roots_of(split_at(nodes, k)) == roots_of(nodes),
        depth_bounded(nodes, d) && nodes[k].address.depth < d ==> depth_bounded(split_at(nodes, k), d),
{
    let new = split_at(nodes, k);
    let a = nodes[k].address;
    lemma_split_entries(nodes, k);
    lemma_child_keys(a);
    assert forall|x: u128| #[trigger] new.contains_key(x) && is_child_key(a, x) implies new[x].address.depth
        == a.depth + 1 by {
        lemma_child_entry(new, a, x);
    }
    assert forall|x: u128| nodes.contains_key(x) && #[trigger] nodes[x].address.depth == 0 implies new.contains_key(
        x,
    ) && new[x].address == nodes[x].address by {
        if x != k && is_child_key(a, x) {
            lemma_child_slot_not_root(nodes, a, x);
        }
    }
    assert(roots_of(new) =~= roots_of(nodes));
    if depth_bounded(nodes, d) && a.depth < d {
        assert forall|x: u128| #[trigger] new.contains_key(x) implies new[x].address.depth <= d by {
            if x != k && !is_child_key(a, x) {
                assert(nodes.contains_key(x));
            }
        }
    }
}

/// The first pass keeps the roots, makes no node deeper than the maximum
/// depth, and only picks candidates above it.
proof fn lemma_pass_one_levels(nodes: Map<u128, QuadtreeNode>, order: Seq<u128>, mt: Map<u128, NodeMetrics>, max_depth: u8)
    requires
        keys_match(nodes),
        tree_shaped(nodes),
        order.no_duplicates(),
    ensures
        roots_of(pass_one(nodes, order, mt, max_depth).nodes) == roots_of(nodes),
        depth_bounded(nodes, max_depth) ==> depth_bounded(pass_one(nodes, order, mt, max_depth).nodes, max_depth),
        forall|i: int|
            0 <= i < pass_one(nodes, order, mt, max_depth).candidates.len() ==> (#[trigger] pass_one(
                nodes,
                order,
                mt,
                max_depth,
            ).candidates[i]).0.depth < max_depth,
    decreases order.len(),
{
    if order.len() > 0 {
        let prefix = order.drop_last();
        let k = order.last();
        assert(prefix.no_duplicates());
        lemma_pass_one_levels(nodes, prefix, mt, max_depth);
        lemma_pass_one_shape(nodes, prefix, mt, max_depth);
        let p = pass_one(nodes, prefix, mt, max_depth);
        let r = pass_one(nodes, order, mt, max_depth);
        if p.nodes.contains_key(k) {
            let node = p.nodes[k];
            let a = node.address;
            if node.state == ChunkState::Subdivided {
                if crate::plugins::quadtree_manager::wants_merge(a, mt)
                    && crate::plugins::quadtree_manager::all_children_are_leaves(p.nodes, a) {
                    lemma_merge_levels(p.nodes, k, max_depth);
                    assert(r.nodes == merge_at(p.nodes, k));
                }
            } else if crate::plugins::quadtree_manager::wants_subdivision(a, mt, max_depth) {
                assert forall|i: int| 0 <= i < r.candidates.len() implies (#[trigger] r.candidates[i]).0.depth
                    < max_depth by {
                    if i < p.candidates.len() {
                        assert(r.candidates[i] == p.candidates[i]);
                    }
                }
            }
        }
    }
}

/// The second pass keeps the roots, and makes no node deeper than the
/// maximum depth when its candidates lie above it.
proof fn lemma_pass_two_levels(p: UpdatePass, chosen: Seq<(QuadtreeAddress, u32)>, mt: Map<u128, NodeMetrics>, max_depth: u8)
    requires
        keys_match(p.nodes),
        tree_shaped(p.nodes),
        forall|i: int| 0 <= i < chosen.len() ==> splittable(p.nodes, #[trigger] chosen[i].0),
        distinct_chunks(chosen),
        forall|i: int| 0 <= i < chosen.len() ==> (#[trigger] chosen[i]).0.depth < max_depth,
    ensures
        roots_of(pass_two(p, chosen, mt).nodes) == roots_of(p.nodes),
        depth_bounded(p.nodes, max_depth) ==> depth_bounded(pass_two(p, chosen, mt).nodes, max_depth),
    decreases chosen.len(),
{
    if chosen.len() > 0 {
        let prefix = chosen.drop_last();
        let c = chosen.last();
        assert forall|i: int| 0 <= i < prefix.len() implies splittable(p.nodes, #[trigger] prefix[i].0) by {
            assert(prefix[i] == chosen[i]);
        }
        assert forall|i: int| 0 <= i < prefix.len() implies (#[trigger] prefix[i]).0.depth < max_depth by {
            assert(prefix[i] == chosen[i]);
        }
        lemma_pass_two_levels(p, prefix, mt, max_depth);
        lemma_pass_two_shape(p, prefix, mt);
        let q = pass_two(p, prefix, mt);
        let r = pass_two(p, chosen, mt);
        let k = node_key(c.0);
        assert(chosen[chosen.len() - 1].0.depth < max_depth);
        if q.nodes.contains_key(k) {
            law_node_key_injective(q.nodes[k].address, c.0);
            lemma_split_levels(q.nodes, k, max_depth);
            assert(r.nodes == split_at(q.nodes, k));
        }
    }
}

/// Law: an update keeps the face roots and the depth bound. Of a quadtree,
/// the nodes at depth 0 are the same, under the same keys, after an update
/// as before it; and if no node lies deeper than the maximum depth before
/// it, none does after it. Every node stays one that a quadtree can hold,
/// so none lies deeper than the subdivision limit either.
pub proof fn law_update_keeps_levels(
    nodes: Map<u128, QuadtreeNode>,
    order: Seq<u128>,
    mt: Map<u128, NodeMetrics>,
    max_depth: u8,
    budget: usize,
)
    requires
        keys_match(nodes),
        tree_shaped(nodes),
        order.no_duplicates(),
    ensures
        roots_of(spec_update(nodes, order, mt, max_depth, budget).0) == roots_of(nodes),
        depth_bounded(nodes, max_depth) ==> depth_bounded(spec_update(nodes, order, mt, max_depth, budget).0, max_depth),
        keys_match(spec_update(nodes, order, mt, max_depth, budget).0),
{
    lemma_pass_one_shape(nodes, order, mt, max_depth);
    lemma_pass_one_levels(nodes, order, mt, max_depth);
    let first = pass_one(nodes, order, mt, max_depth);
    let sorted = sort_by_distance(first.candidates);
    let chosen = sorted.take(subdivision_limit(budget, sorted.len()) as int);
    lemma_sort_distinct(first.candidates);
    lemma_sort_members(first.candidates);
    assert forall|i: int| 0 <= i < chosen.len() implies splittable(first.nodes, #[trigger] chosen[i].0)
        && chosen[i].0.depth < max_depth by {
        assert(chosen[i] == sorted[i]);
        assert(first.candidates.contains(sorted[i]));
        let w = choose|w: int| 0 <= w < first.candidates.len() && first.candidates[w] == sorted[i];
        assert(splittable(first.nodes, first.candidates[w].0));
        assert(first.candidates[w].0.depth < max_depth);
    }
    assert(distinct_chunks(chosen)) by {
        assert forall|i: int, j: int| 0 <= i < j < chosen.len() implies node_key(chosen[i].0) != node_key(
            chosen[j].0,
        ) by {
            assert(chosen[i] == sorted[i] && chosen[j] == sorted[j]);
        }
    }
    lemma_pass_two_shape(first, chosen, mt);
    lemma_pass_two_levels(first, chosen, mt, max_depth);
}

/// The keys of the six face roots.
pub open spec fn face_root_keys() -> Set<u128> {
    Set::new(|k: u128| exists|f: u8| f < 6 && k == node_key(#[trigger] QuadtreeAddress::spec_root(f)))
}

/// A tree as initialization and updates leave it, for the maximum depth
/// `max_depth`: every node is stored under the key of its own address, the
/// nodes form a quadtree, the nodes at depth 0 are exactly the six face
/// roots, and no node lies deeper than `max_depth`.
pub open spec fn valid_tree(nodes: Map<u128, QuadtreeNode>, max_depth: u8) -> bool {
    &&& keys_match(nodes)
    &&& tree_shaped(nodes)
    &&& roots_of(nodes).dom() == face_root_keys()
    &&& depth_bounded(nodes, max_depth)
}

/// Law: initializing an empty tree gives a valid tree, whatever the maximum
/// depth.
pub proof fn law_initial_tree_valid(max_depth: u8)
    ensures
        valid_tree(with_roots(Map::empty()), max_depth),
{
    law_initialized_tree();
    let m = with_roots(Map::<u128, QuadtreeNode>::empty());
    assert(crate::plugins::quadtree::pow4(0) == 1);
    assert forall|k: u128| roots_of(m).dom().contains(k) implies face_root_keys().contains(k) by {
        let a = m[k].address;
        assert(a == QuadtreeAddress::spec_root(a.face));
    }
    assert forall|k: u128| face_root_keys().contains(k) implies roots_of(m).dom().contains(k) by {
        let f = choose|f: u8| f < 6 && k == node_key(#[trigger] QuadtreeAddress::spec_root(f));
        assert(m.contains_key(node_key(QuadtreeAddress::spec_root(f))));
    }
    assert(roots_of(m).dom() =~= face_root_keys());
}

/// Law: an update keeps a tree valid, whatever the metrics, the budget and
/// the order in which it walks the nodes.
pub proof fn law_update_keeps_valid_tree(
    nodes: Map<u128, QuadtreeNode>,
    order: Seq<u128>,
    mt: Map<u128, NodeMetrics>,
    max_depth: u8,
    budget: usize,
)
    requires
        valid_tree(nodes, max_depth),
        order.no_duplicates(),
    ensures
        valid_tree(spec_update(nodes, order, mt, max_depth, budget).0, max_depth),
{
    law_update_keeps_tree_shape(nodes, order, mt, max_depth, budget);
    law_update_keeps_levels(nodes, order, mt, max_depth, budget);
}

/// What a valid tree holds, spelled out: one root per face, under the key
/// of its address; every node under the key of its own address and no
/// deeper than the maximum depth or the subdivision limit; every node below
/// the roots under a subdivided parent; every subdivided node with its four
/// children; every other node with none.
pub proof fn law_valid_tree_facts(nodes: Map<u128, QuadtreeNode>, max_depth: u8)
    requires
        valid_tree(nodes, max_depth),
    ensures
        forall|f: u8|
            f < 6 ==> nodes.contains_key(#[trigger] node_key(QuadtreeAddress::spec_root(f))) && nodes[node_key(
                QuadtreeAddress::spec_root(f),
            )].address == QuadtreeAddress::spec_root(f),
        forall|k: u128|
            #[trigger] nodes.contains_key(k) ==> node_key(nodes[k].address) == k && nodes[k].address.depth
                <= max_depth && nodes[k].address.depth <= SUBDIVISION_DEPTH_LIMIT,
        forall|k: u128|
            #[trigger] nodes.contains_key(k) && nodes[k].address.depth == 0 ==> face_root_keys().contains(k),
        forall|k: u128|
            nodes.contains_key(k) && nodes[k].address.depth > 0 ==> nodes.contains_key(
                #[trigger] crate::plugins::quadtree_shape::parent_key(nodes[k].address),
            ) && nodes[crate::plugins::quadtree_shape::parent_key(nodes[k].address)].state
                == ChunkState::Subdivided,
        forall|k: u128, q: u8|
            nodes.contains_key(k) && q < 4 ==> (nodes.contains_key(#[trigger] child_key(nodes[k].address, q))
                <==> nodes[k].state == ChunkState::Subdivided),
{
    assert forall|f: u8| f < 6 implies nodes.contains_key(#[trigger] node_key(QuadtreeAddress::spec_root(f)))
        && nodes[node_key(QuadtreeAddress::spec_root(f))].address == QuadtreeAddress::spec_root(f) by {
        let k = node_key(QuadtreeAddress::spec_root(f));
        assert(face_root_keys().contains(k));
        assert(roots_of(nodes).dom().contains(k));
        law_node_key_injective(nodes[k].address, QuadtreeAddress::spec_root(f));
    }
    assert forall|k: u128| #[trigger] nodes.contains_key(k) && nodes[k].address.depth == 0 implies face_root_keys().contains(
        k,
    ) by {
        assert(roots_of(nodes).dom().contains(k));
    }
    assert forall|k: u128, q: u8| nodes.contains_key(k) && q < 4 implies (nodes.contains_key(
        #[trigger] child_key(nodes[k].address, q),
    ) <==> nodes[k].state == ChunkState::Subdivided) by {
        if nodes[k].state != ChunkState::Subdivided {
            law_unsplit_chunk_childless(nodes, k, q);
        }
    }
}

/// The nodes after updating `nodes` with each step in turn; a step is a walk
/// order, a metrics table and a subdivision budget.
pub open spec fn after_updates(
    nodes: Map<u128, QuadtreeNode>,
    steps: Seq<(Seq<u128>, Map<u128, NodeMetrics>, usize)>,
    max_depth: u8,
) -> Map<u128, QuadtreeNode>
    decreases steps.len(),
{
    if steps.len() == 0 {
        nodes
    } else {
        let s = steps.last();
        spec_update(after_updates(nodes, steps.drop_last(), max_depth), s.0, s.1, max_depth, s.2).0
    }
}

/// Law: any sequence of updates of a freshly initialized tree leaves a
/// valid tree: the six face roots and nothing else at depth 0, every node
/// under the key of its address and no deeper than the maximum depth, every
/// node below the roots under a subdivided parent, every subdivided node with
/// its four children, every other node with none.
pub proof fn law_updates_from_initial_tree(steps: Seq<(Seq<u128>, Map<u128, NodeMetrics>, usize)>, max_depth: u8)
    requires
        forall|i: int| 0 <= i < steps.len() ==> (#[trigger] steps[i]).0.no_duplicates(),
    ensures
        valid_tree(after_updates(with_roots(Map::empty()), steps, max_depth), max_depth),
    decreases steps.len(),
{
    if steps.len() == 0 {
        law_initial_tree_valid(max_depth);
    } else {
        let prefix = steps.drop_last();
        assert forall|i: int| 0 <= i < prefix.len() implies (#[trigger] prefix[i]).0.no_duplicates() by {
            assert(prefix[i] == steps[i]);
        }
        law_updates_from_initial_tree(prefix, max_depth);
        let s = steps.last();
        assert(steps[steps.len() - 1].0.no_duplicates());
        law_update_keeps_valid_tree(after_updates(with_roots(Map::empty()), prefix, max_depth), s.0, s.1, max_depth, s.2);
    }
}

} // verus!
