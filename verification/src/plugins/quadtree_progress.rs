//! Why a stationary observer's quadtree settles: every update that changes
//! the tree lowers the pending work, a natural number.
use vstd::prelude::*;
use crate::plugins::quadtree::QuadtreeAddress;
use crate::plugins::quadtree_manager::{
    all_children_are_leaves, child_key, keys_match, lemma_sort_members, law_node_key_injective, node_key,
    pass_one, pass_two, sort_by_distance, spec_update, subdivision_limit, wants_merge, wants_subdivision,
    ChunkState, NodeMetrics, QuadtreeNode, UpdatePass,
};
use crate::plugins::quadtree_shape::{
    distinct_chunks, is_child_key, lemma_child_keys, lemma_merge_entries, lemma_merge_keeps_shape,
    lemma_pass_one_shape, lemma_pass_two_shape, lemma_sort_distinct, lemma_split_entries, merge_at, split_at,
    splittable, tree_shaped,
};

verus! {

/// `5^n`.
pub open spec fn pow5(n: nat) -> nat
    decreases n,
{
    if n == 0 {
        1
    } else {
        5 * pow5((n - 1) as nat)
    }
}

proof fn lemma_pow5_positive(n: nat)
    ensures
        pow5(n) > 0,
    decreases n,
{
    if n > 0 {
        lemma_pow5_positive((n - 1) as nat);
    }
}

/// The weight of a pending chunk at depth `d`: `5^(26 - d)`, so that one
/// chunk outweighs four one level deeper.
pub open spec fn depth_weight(d: nat) -> nat {
    pow5((26 - d) as nat)
}

/// `c(0) * w(0) + ... + c(n - 1) * w(n - 1)` with the depth weights `w`.
pub open spec fn weighted_sum(c: spec_fn(nat) -> nat, n: nat) -> nat
    decreases n,
{
    if n == 0 {
        0
    } else {
        weighted_sum(c, (n - 1) as nat) + c((n - 1) as nat) * depth_weight((n - 1) as nat)
    }
}

/// One fewer at depth `d0`, at most four more at `d0 + 1` and no change
/// elsewhere lowers the weighted sum over the depths below `n`, once `n`
/// passes `d0`.
proof fn lemma_weighted_drop(f: spec_fn(nat) -> nat, g: spec_fn(nat) -> nat, d0: nat, n: nat)
    requires
        d0 + 1 < 26,
        n <= 26,
        forall|d: nat| d < 26 && d != d0 && d != d0 + 1 ==> #[trigger] g(d) == f(d),
        g(d0) + 1 == f(d0),
        g(d0 + 1) <= f(d0 + 1) + 4,
    ensures
        n <= d0 ==> weighted_sum(g, n) == weighted_sum(f, n),
        n == d0 + 1 ==> weighted_sum(g, n) + depth_weight(d0) == weighted_sum(f, n),
        n > d0 + 1 ==> weighted_sum(g, n) + depth_weight(d0 + 1) <= weighted_sum(f, n),
    decreases n,
{
    if n > 0 {
        let m = (n - 1) as nat;
        lemma_weighted_drop(f, g, d0, m);
        let w = depth_weight(m);
        if m == d0 {
            assert(g(m) * w + w == f(m) * w) by (nonlinear_arith)
                requires
                    g(m) + 1 == f(m),
            ;
        } else if m == d0 + 1 {
            assert(depth_weight(d0) == 5 * depth_weight(d0 + 1)) by {
                assert((26 - d0) as nat == (26 - (d0 + 1)) as nat + 1);
            }
            assert(g(m) * w <= f(m) * w + 4 * w) by (nonlinear_arith)
                requires
                    g(m) <= f(m) + 4,
            ;
        } else {
            assert(g(m) == f(m));
        }
    }
}

/// The weighted sum is lower after one fewer at `d0`, at most four more at
/// `d0 + 1`, and no change elsewhere.
pub(crate) proof fn lemma_weighted_sum_drops(f: spec_fn(nat) -> nat, g: spec_fn(nat) -> nat, d0: nat)
    requires
        d0 + 1 < 26,
        forall|d: nat| d < 26 && d != d0 && d != d0 + 1 ==> #[trigger] g(d) == f(d),
        g(d0) + 1 == f(d0),
        g(d0 + 1) <= f(d0 + 1) + 4,
    ensures
        weighted_sum(g, 26) < weighted_sum(f, 26),
{
    lemma_weighted_drop(f, g, d0, 26);
    lemma_pow5_positive((26 - (d0 + 1)) as nat);
}

/// A chunk that still wants to change: a leaf (or generating chunk) that
/// wants to split, or a subdivided chunk that wants to merge.
pub open spec fn pending(n: QuadtreeNode, mt: Map<u128, NodeMetrics>, max_depth: u8) -> bool {
    if n.state == ChunkState::Subdivided {
        wants_merge(n.address, mt)
    } else {
        wants_subdivision(n.address, mt, max_depth)
    }
}

/// The keys of the pending chunks at depth `d`.
pub open spec fn pending_at(nodes: Map<u128, QuadtreeNode>, mt: Map<u128, NodeMetrics>, max_depth: u8, d: nat) -> Set<u128> {
    nodes.dom().filter(|k: u128| nodes[k].address.depth == d && pending(nodes[k], mt, max_depth))
}

/// The number of pending chunks at each depth.
pub open spec fn pending_counts(nodes: Map<u128, QuadtreeNode>, mt: Map<u128, NodeMetrics>, max_depth: u8) -> spec_fn(nat) -> nat {
    |d: nat| pending_at(nodes, mt, max_depth, d).len()
}

/// The work still pending in a tree: each pending chunk weighs
/// `depth_weight` of its depth.
pub open spec fn pending_work(nodes: Map<u128, QuadtreeNode>, mt: Map<u128, NodeMetrics>, max_depth: u8) -> nat {
    weighted_sum(pending_counts(nodes, mt, max_depth), 26)
}

/// The metrics never ask one chunk both to split and to merge.
pub open spec fn hysteresis(mt: Map<u128, NodeMetrics>, max_depth: u8) -> bool {
    forall|a: QuadtreeAddress| #[trigger] wants_subdivision(a, mt, max_depth) ==> !wants_merge(a, mt)
}

/// The entry at a key of one of the children of `a` is for that child.
proof fn lemma_child_entry_address(nodes: Map<u128, QuadtreeNode>, a: QuadtreeAddress, x: u128)
    requires
        keys_match(nodes),
        nodes.contains_key(x),
        is_child_key(a, x),
        a.depth < 255,
    ensures
        nodes[x].address.depth == a.depth + 1,
{
    let q: u8 = if x == child_key(a, 0) {
        0
    } else if x == child_key(a, 1) {
        1
    } else if x == child_key(a, 2) {
        2
    } else {
        3
    };
    law_node_key_injective(nodes[x].address, a.spec_child(q));
}

/// The four keys of the children of `a`.
pub open spec fn child_keys(a: QuadtreeAddress) -> Set<u128> {
    set![child_key(a, 0), child_key(a, 1), child_key(a, 2), child_key(a, 3)]
}

proof fn lemma_child_keys_len(a: QuadtreeAddress)
    ensures
        child_keys(a).finite(),
        child_keys(a).len() <= 4,
{
    let s0 = Set::<u128>::empty();
    let s1 = s0.insert(child_key(a, 0));
    let s2 = s1.insert(child_key(a, 1));
    let s3 = s2.insert(child_key(a, 2));
    let s4 = s3.insert(child_key(a, 3));
    assert(s4 == child_keys(a));
}

/// Splitting a leaf that wants to split lowers the pending work.
pub(crate) proof fn lemma_split_lowers_work(nodes: Map<u128, QuadtreeNode>, k: u128, mt: Map<u128, NodeMetrics>, max_depth: u8)
    requires
        keys_match(nodes),
        nodes.dom().finite(),
        nodes.contains_key(k),
        nodes[k].state != ChunkState::Subdivided,
        wants_subdivision(nodes[k].address, mt, max_depth),
        hysteresis(mt, max_depth),
    ensures
        split_at(nodes, k).dom().finite(),
        pending_work(split_at(nodes, k), mt, max_depth) < pending_work(nodes, mt, max_depth),
{
    let a = nodes[k].address;
    let new = split_at(nodes, k);
    let d0 = a.depth as nat;
    lemma_split_entries(nodes, k);
    lemma_child_keys(a);
    assert(new.dom() =~= nodes.dom().insert(k).union(child_keys(a)));
    lemma_child_keys_len(a);
    let f = pending_counts(nodes, mt, max_depth);
    let g = pending_counts(new, mt, max_depth);
    assert forall|d: nat| d < 26 && d != d0 && d != d0 + 1 implies #[trigger] g(d) == f(d) by {
        assert forall|x: u128| pending_at(new, mt, max_depth, d).contains(x) == pending_at(nodes, mt, max_depth, d).contains(x) by {
            if is_child_key(a, x) {
                if nodes.contains_key(x) {
                    lemma_child_entry_address(nodes, a, x);
                }
                lemma_child_entry_address(new, a, x);
            } else if x != k {
                assert(new.contains_key(x) == nodes.contains_key(x));
            }
        }
        assert(pending_at(new, mt, max_depth, d) =~= pending_at(nodes, mt, max_depth, d));
    }
    let before0 = pending_at(nodes, mt, max_depth, d0);
    let after0 = pending_at(new, mt, max_depth, d0);
    nodes.dom().lemma_len_filter(|x: u128| nodes[x].address.depth == d0 && pending(nodes[x], mt, max_depth));
    assert forall|x: u128| after0.contains(x) == before0.remove(k).contains(x) by {
        if is_child_key(a, x) {
            if nodes.contains_key(x) {
                lemma_child_entry_address(nodes, a, x);
            }
            lemma_child_entry_address(new, a, x);
        } else if x != k {
            assert(new.contains_key(x) == nodes.contains_key(x));
        }
    }
    assert(after0 =~= before0.remove(k));
    assert(before0.contains(k));
    let before1 = pending_at(nodes, mt, max_depth, d0 + 1);
    let after1 = pending_at(new, mt, max_depth, d0 + 1);
    nodes.dom().lemma_len_filter(|x: u128| nodes[x].address.depth == d0 + 1 && pending(nodes[x], mt, max_depth));
    assert forall|x: u128| after1.contains(x) implies before1.union(child_keys(a)).contains(x) by {
        if !is_child_key(a, x) && x != k {
            assert(new.contains_key(x) == nodes.contains_key(x));
        }
    }
    vstd::set_lib::lemma_len_union(before1, child_keys(a));
    vstd::set_lib::lemma_len_subset(after1, before1.union(child_keys(a)));
    lemma_weighted_sum_drops(f, g, d0);
}

/// Merging a subdivided chunk that wants to merge lowers the pending work.
pub(crate) proof fn lemma_merge_lowers_work(nodes: Map<u128, QuadtreeNode>, k: u128, mt: Map<u128, NodeMetrics>, max_depth: u8)
    requires
        keys_match(nodes),
        nodes.dom().finite(),
        nodes.contains_key(k),
        nodes[k].state == ChunkState::Subdivided,
        wants_merge(nodes[k].address, mt),
        all_children_are_leaves(nodes, nodes[k].address),
        hysteresis(mt, max_depth),
    ensures
        merge_at(nodes, k).dom().finite(),
        pending_work(merge_at(nodes, k), mt, max_depth) < pending_work(nodes, mt, max_depth),
{
    let a = nodes[k].address;
    let new = merge_at(nodes, k);
    let d0 = a.depth as nat;
    lemma_merge_entries(nodes, k);
    lemma_child_keys(a);
    assert(new.dom().subset_of(nodes.dom()));
    vstd::set_lib::lemma_len_subset(new.dom(), nodes.dom());
    let f = pending_counts(nodes, mt, max_depth);
    let g = pending_counts(new, mt, max_depth);
    assert forall|d: nat| d < 26 && d != d0 && d != d0 + 1 implies #[trigger] g(d) == f(d) by {
        assert forall|x: u128| pending_at(new, mt, max_depth, d).contains(x) == pending_at(nodes, mt, max_depth, d).contains(x) by {
            if is_child_key(a, x) {
                if nodes.contains_key(x) {
                    lemma_child_entry_address(nodes, a, x);
                }
            } else if x != k {
                assert(new.contains_key(x) == nodes.contains_key(x));
            }
        }
        assert(pending_at(new, mt, max_depth, d) =~= pending_at(nodes, mt, max_depth, d));
    }
    let before0 = pending_at(nodes, mt, max_depth, d0);
    let after0 = pending_at(new, mt, max_depth, d0);
    nodes.dom().lemma_len_filter(|x: u128| nodes[x].address.depth == d0 && pending(nodes[x], mt, max_depth));
    assert forall|x: u128| after0.contains(x) == before0.remove(k).contains(x) by {
        if is_child_key(a, x) {
            if nodes.contains_key(x) {
                lemma_child_entry_address(nodes, a, x);
            }
        } else if x != k {
            assert(new.contains_key(x) == nodes.contains_key(x));
        }
    }
    assert(after0 =~= before0.remove(k));
    assert(before0.contains(k));
    let before1 = pending_at(nodes, mt, max_depth, d0 + 1);
    let after1 = pending_at(new, mt, max_depth, d0 + 1);
    nodes.dom().lemma_len_filter(|x: u128| nodes[x].address.depth == d0 + 1 && pending(nodes[x], mt, max_depth));
    assert forall|x: u128| after1.contains(x) implies before1.contains(x) by {
        if !is_child_key(a, x) && x != k {
            assert(new.contains_key(x) == nodes.contains_key(x));
        }
    }
    vstd::set_lib::lemma_len_subset(after1, before1);
    lemma_weighted_sum_drops(f, g, d0);
}

/// The first pass either changes nothing or lowers the pending work; its
/// candidates all want to split.
proof fn lemma_pass_one_work(nodes: Map<u128, QuadtreeNode>, order: Seq<u128>, mt: Map<u128, NodeMetrics>, max_depth: u8)
    requires
        keys_match(nodes),
        tree_shaped(nodes),
        nodes.dom().finite(),
        order.no_duplicates(),
        hysteresis(mt, max_depth),
    ensures
        pass_one(nodes, order, mt, max_depth).nodes.dom().finite(),
        (pass_one(nodes, order, mt, max_depth).nodes == nodes && pass_one(nodes, order, mt, max_depth).spawns.len()
            == 0 && pass_one(nodes, order, mt, max_depth).despawns.len() == 0) || pending_work(
            pass_one(nodes, order, mt, max_depth).nodes,
            mt,
            max_depth,
        ) < pending_work(nodes, mt, max_depth),
        forall|i: int|
            0 <= i < pass_one(nodes, order, mt, max_depth).candidates.len() ==> wants_subdivision(
                #[trigger] pass_one(nodes, order, mt, max_depth).candidates[i].0,
                mt,
                max_depth,
            ),
    decreases order.len(),
{
    if order.len() > 0 {
        let prefix = order.drop_last();
        let k = order.last();
        assert(prefix.no_duplicates());
        lemma_pass_one_work(nodes, prefix, mt, max_depth);
        lemma_pass_one_shape(nodes, prefix, mt, max_depth);
        let p = pass_one(nodes, prefix, mt, max_depth);
        let r = pass_one(nodes, order, mt, max_depth);
        if p.nodes.contains_key(k) {
            let node = p.nodes[k];
            let a = node.address;
            if node.state == ChunkState::Subdivided {
                if wants_merge(a, mt) && all_children_are_leaves(p.nodes, a) {
                    lemma_merge_lowers_work(p.nodes, k, mt, max_depth);
                    assert(r.nodes == merge_at(p.nodes, k));
                    assert forall|i: int| 0 <= i < r.candidates.len() implies wants_subdivision(
                        #[trigger] r.candidates[i].0,
                        mt,
                        max_depth,
                    ) by {
                        assert(r.candidates[i] == p.candidates[i]);
                    }
                }
            } else if wants_subdivision(a, mt, max_depth) {
                assert forall|i: int| 0 <= i < r.candidates.len() implies wants_subdivision(
                    #[trigger] r.candidates[i].0,
                    mt,
                    max_depth,
                ) by {
                    if i < p.candidates.len() {
                        assert(r.candidates[i] == p.candidates[i]);
                    }
                }
            }
        }
    }
}

/// The second pass either changes nothing or lowers the pending work.
proof fn lemma_pass_two_work(p: UpdatePass, chosen: Seq<(QuadtreeAddress, u32)>, mt: Map<u128, NodeMetrics>, max_depth: u8)
    requires
        keys_match(p.nodes),
        tree_shaped(p.nodes),
        p.nodes.dom().finite(),
        forall|i: int|
            0 <= i < chosen.len() ==> splittable(p.nodes, #[trigger] chosen[i].0) && wants_subdivision(
                chosen[i].0,
                mt,
                max_depth,
            ),
        distinct_chunks(chosen),
        hysteresis(mt, max_depth),
    ensures
        pass_two(p, chosen, mt).nodes.dom().finite(),
        (pass_two(p, chosen, mt).nodes == p.nodes && pass_two(p, chosen, mt).spawns == p.spawns && pass_two(
            p,
            chosen,
            mt,
        ).despawns == p.despawns) || pending_work(pass_two(p, chosen, mt).nodes, mt, max_depth) < pending_work(
            p.nodes,
            mt,
            max_depth,
        ),
    decreases chosen.len(),
{
    if chosen.len() > 0 {
        let prefix = chosen.drop_last();
        let c = chosen.last();
        assert forall|i: int| 0 <= i < prefix.len() implies splittable(p.nodes, #[trigger] prefix[i].0)
            && wants_subdivision(prefix[i].0, mt, max_depth) by {
            assert(prefix[i] == chosen[i]);
        }
        lemma_pass_two_work(p, prefix, mt, max_depth);
        lemma_pass_two_shape(p, prefix, mt);
        let q = pass_two(p, prefix, mt);
        let k = node_key(c.0);
        assert(splittable(p.nodes, chosen[chosen.len() - 1].0));
        assert(wants_subdivision(chosen[chosen.len() - 1].0, mt, max_depth));
        if q.nodes.contains_key(k) {
            if q.nodes[k].state == ChunkState::Subdivided {
                if exists|i: int| 0 <= i < prefix.len() && node_key(#[trigger] prefix[i].0) == k {
                    let i = choose|i: int| 0 <= i < prefix.len() && node_key(#[trigger] prefix[i].0) == k;
                    assert(prefix[i] == chosen[i]);
                    assert(node_key(chosen[i].0) != node_key(chosen[chosen.len() - 1].0));
                }
            }
            law_node_key_injective(q.nodes[k].address, c.0);
            lemma_split_lowers_work(q.nodes, k, mt, max_depth);
            assert(pass_two(p, chosen, mt).nodes == split_at(q.nodes, k));
        }
    }
}

/// Law: a stationary observer's tree settles. When the metrics never ask a
/// chunk both to split and to merge, an update either changes nothing and
/// spawns and despawns nothing, or lowers the pending work, a natural
/// number; so repeated updates with the same metrics stop changing the tree
/// after at most that many updates, whatever the budget and walk order.
pub proof fn law_update_settles(
    nodes: Map<u128, QuadtreeNode>,
    order: Seq<u128>,
    mt: Map<u128, NodeMetrics>,
    max_depth: u8,
    budget: usize,
)
    requires
        keys_match(nodes),
        tree_shaped(nodes),
        nodes.dom().finite(),
        order.no_duplicates(),
        hysteresis(mt, max_depth),
    ensures
        ({
            let (new, spawned, despawned) = spec_update(nodes, order, mt, max_depth, budget);
            ||| new == nodes && spawned.len() == 0 && despawned.len() == 0
            ||| pending_work(new, mt, max_depth) < pending_work(nodes, mt, max_depth)
        }),
{
    lemma_pass_one_work(nodes, order, mt, max_depth);
    lemma_pass_one_shape(nodes, order, mt, max_depth);
    let first = pass_one(nodes, order, mt, max_depth);
    let sorted = sort_by_distance(first.candidates);
    let chosen = sorted.take(subdivision_limit(budget, sorted.len()) as int);
    lemma_sort_distinct(first.candidates);
    lemma_sort_members(first.candidates);
    assert forall|i: int| 0 <= i < chosen.len() implies splittable(first.nodes, #[trigger] chosen[i].0)
        && wants_subdivision(chosen[i].0, mt, max_depth) by {
        assert(chosen[i] == sorted[i]);
        assert(first.candidates.contains(sorted[i]));
        let w = choose|w: int| 0 <= w < first.candidates.len() && first.candidates[w] == sorted[i];
        assert(splittable(first.nodes, first.candidates[w].0));
        assert(wants_subdivision(first.candidates[w].0, mt, max_depth));
    }
    assert(distinct_chunks(chosen)) by {
        assert forall|i: int, j: int| 0 <= i < j < chosen.len() implies node_key(chosen[i].0) != node_key(
            chosen[j].0,
        ) by {
            assert(chosen[i] == sorted[i] && chosen[j] == sorted[j]);
        }
    }
    lemma_pass_two_work(first, chosen, mt, max_depth);
    let second = pass_two(first, chosen, mt);
    lemma_sort_members(second.spawns);
}

} // verus!
