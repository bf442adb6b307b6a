//! The quadtree of terrain chunks of one planet: which chunks exist, which
//! are leaves, and how the tree is refined or coarsened around an observer.
//!
//! The geometry (where a chunk lies, how far it is from the observer) is
//! computed outside this module and handed in as a `MetricsTable`; the
//! structure of the tree and every decision made from those metrics are here.
use vstd::prelude::*;
use std::collections::HashMap;
use vstd::std_specs::iter::IteratorSpec;
use crate::plugins::quadtree::QuadtreeAddress;
use crate::plugins::quadtree_shape::{law_despawned_chunks_leave, law_update_keeps_tree_shape, tree_shaped};
use crate::plugins::quadtree_progress::{hysteresis, law_update_settles, pending_work};
use crate::plugins::quadtree_levels::{
    depth_bounded, law_initial_tree_valid, law_update_keeps_levels, law_update_keeps_valid_tree, roots_of, valid_tree,
};

verus! {

broadcast use vstd::std_specs::hash::group_hash_axioms;

/// The map key of an address: face, depth and Morton code packed side by side.
pub open spec fn node_key(a: QuadtreeAddress) -> u128 {
    (a.face as int * 0x1_00_0000_0000_0000_0000 + a.depth as int * 0x1_0000_0000_0000_0000 + a.morton as int) as u128
}

/// Computes `node_key`.
pub fn address_key(a: &QuadtreeAddress) -> (k: u128)
    ensures
        k == node_key(*a),
{
    (a.face as u128) * 0x1_00_0000_0000_0000_0000u128 + (a.depth as u128) * 0x1_0000_0000_0000_0000u128 + (a.morton as u128)
}

/// Law: distinct addresses have distinct keys.
pub proof fn law_node_key_injective(a: QuadtreeAddress, b: QuadtreeAddress)
    requires
        node_key(a) == node_key(b),
    ensures
        a == b,
{
    let qa = a.face as int * 256 + a.depth as int;
    let qb = b.face as int * 256 + b.depth as int;
    assert(node_key(a) as int == qa * 0x1_0000_0000_0000_0000 + a.morton as int);
    assert(node_key(b) as int == qb * 0x1_0000_0000_0000_0000 + b.morton as int);
    vstd::arithmetic::div_mod::lemma_fundamental_div_mod_converse(
        node_key(a) as int,
        0x1_0000_0000_0000_0000,
        qa,
        a.morton as int,
    );
    vstd::arithmetic::div_mod::lemma_fundamental_div_mod_converse(
        node_key(b) as int,
        0x1_0000_0000_0000_0000,
        qb,
        b.morton as int,
    );
    vstd::arithmetic::div_mod::lemma_fundamental_div_mod_converse(qa, 256, a.face as int, a.depth as int);
    vstd::arithmetic::div_mod::lemma_fundamental_div_mod_converse(qb, 256, b.face as int, b.depth as int);
}

/// State of a quadtree chunk in the terrain system
#[derive(Debug, Clone, Copy, PartialEq, Eq, Structural)]
pub enum ChunkState {
    /// Chunk is a leaf node and should be rendered
    Leaf,
    /// Chunk has been subdivided, children should be rendered instead
    Subdivided,
    /// Chunk is being generated
    Generating,
}

/// Quadtree node data for terrain chunks. `entity` identifies the rendered
/// mesh of the chunk, once there is one.
#[derive(Debug, Clone, Copy, PartialEq, Eq, Structural)]
pub struct QuadtreeNode {
    pub address: QuadtreeAddress,
    pub state: ChunkState,
    pub entity: Option<u64>,
}

/// A fresh leaf chunk without a mesh.
pub open spec fn fresh_leaf(a: QuadtreeAddress) -> QuadtreeNode {
    QuadtreeNode { address: a, state: ChunkState::Leaf, entity: None }
}

/// The nodes of a quadtree, keyed by address.
pub struct NodeMap {
    map: HashMap<u128, QuadtreeNode>,
}

impl View for NodeMap {
    type V = Map<u128, QuadtreeNode>;

    closed spec fn view(&self) -> Map<u128, QuadtreeNode> {
        self.map@
    }
}

/// Chunks never split below this depth.
pub const SUBDIVISION_DEPTH_LIMIT: u8 = 24;

/// A node that a quadtree can hold: a well-formed address no deeper than
/// one level below the subdivision limit.
pub open spec fn node_ok(n: QuadtreeNode) -> bool {
    n.address.wf() && n.address.depth <= SUBDIVISION_DEPTH_LIMIT
}

/// Every entry of the map is stored under the key of its own address, and
/// every node is one that a quadtree can hold.
pub open spec fn keys_match(m: Map<u128, QuadtreeNode>) -> bool {
    forall|k: u128| #[trigger] m.contains_key(k) ==> node_key(m[k].address) == k && node_ok(m[k])
}

impl NodeMap {
    #[verifier::type_invariant]
    closed spec fn inv(self) -> bool {
        keys_match(self.map@)
    }

    /// Whether the map holds a node for `a`.
    pub open spec fn has(self, a: QuadtreeAddress) -> bool {
        self@.contains_key(node_key(a))
    }

    /// The node stored for `a`.
    pub open spec fn node(self, a: QuadtreeAddress) -> QuadtreeNode {
        self@[node_key(a)]
    }

    /// An empty map.
    pub fn new() -> (r: Self)
        ensures
            r@ == Map::<u128, QuadtreeNode>::empty(),
    {
        NodeMap { map: HashMap::new() }
    }

    /// Number of nodes.
    pub fn len(&self) -> (r: usize)
        ensures
            r == self@.len(),
    {
        self.map.len()
    }

    /// Whether there are no nodes.
    pub fn is_empty(&self) -> (r: bool)
        ensures
            r == (self@.len() == 0),
    {
        proof {
            vstd::std_specs::hash::axiom_hashmap_view_finite_dom(self.map);
        }
        self.map.is_empty()
    }

    /// Whether there is a node for `a`.
    pub fn contains_key(&self, a: &QuadtreeAddress) -> (r: bool)
        ensures
            r == self.has(*a),
    {
        let k = address_key(a);
        self.map.contains_key(&k)
    }

    /// The node for `a`, if any.
    pub fn get(&self, a: &QuadtreeAddress) -> (r: Option<&QuadtreeNode>)
        ensures
            match r {
                Some(n) => self.has(*a) && *n == self.node(*a),
                None => !self.has(*a),
            },
    {
        let k = address_key(a);
        self.map.get(&k)
    }

    /// Every entry is stored under the key of its own address, and every
    /// node is one that a quadtree can hold.
    pub fn entries_match(&self)
        ensures
            keys_match(self@),
    {
        proof {
            use_type_invariant(self);
        }
    }

    /// The node stored under key `k`, if any.
    fn get_by_key(&self, k: u128) -> (r: Option<QuadtreeNode>)
        ensures
            match r {
                Some(n) => self@.contains_key(k) && n == self@[k],
                None => !self@.contains_key(k),
            },
    {
        match self.map.get(&k) {
            Some(n) => Some(*n),
            None => None,
        }
    }

    /// Store `node` under its own address, replacing any node there.
    fn insert(&mut self, node: QuadtreeNode)
        requires
            node_ok(node),
        ensures
            final(self)@ == old(self)@.insert(node_key(node.address), node),
    {
        proof {
            use_type_invariant(&*self);
        }
        let k = address_key(&node.address);
        let mut m = HashMap::new();
        std::mem::swap(&mut m, &mut self.map);
        m.insert(k, node);
        self.map = m;
    }

    /// Remove the node for `a`, if any.
    fn remove(&mut self, a: &QuadtreeAddress)
        ensures
            final(self)@ == old(self)@.remove(node_key(*a)),
    {
        proof {
            use_type_invariant(&*self);
        }
        let k = address_key(a);
        let mut m = HashMap::new();
        std::mem::swap(&mut m, &mut self.map);
        m.remove(&k);
        self.map = m;
    }

    /// All keys, each once, in the order in which the map is walked.
    fn keys(&self) -> (r: Vec<u128>)
        ensures
            r@.no_duplicates(),
            r@.to_set() == self@.dom(),
    {
        let ghost all = vstd::std_specs::hash::spec_keys_iter(&self.map).remaining().unref();
        proof {
            vstd::std_specs::hash::axiom_spec_keys_iter(&self.map);
        }
        let mut r: Vec<u128> = Vec::new();
        for k in it: self.map.keys()
            invariant
                it.seq().unref() == all,
                all.no_duplicates(),
                all.to_set() == self.map@.dom(),
                r@ == all.take(it.index()),
        {
            r.push(*k);
        }
        assert(r@ =~= all);
        r
    }
}

/// Where a chunk stands relative to the observer, as computed from the
/// planet's geometry for one update.
#[derive(Debug, Clone, Copy, PartialEq, Eq, Structural)]
pub struct NodeMetrics {
    /// Orders chunks by their distance from the observer (smaller is closer).
    pub distance_key: u32,
    /// The observer is closer to the chunk's center than the subdivision
    /// threshold times the chunk's size.
    pub within_subdivision_range: bool,
    /// The observer is farther from the parent's center than the merge
    /// threshold times the parent's size.
    pub beyond_merge_range: bool,
}

/// Metrics of chunks for one update, keyed by address.
pub struct MetricsTable {
    map: HashMap<u128, NodeMetrics>,
}

impl View for MetricsTable {
    type V = Map<u128, NodeMetrics>;

    closed spec fn view(&self) -> Map<u128, NodeMetrics> {
        self.map@
    }
}

impl MetricsTable {
    /// An empty table.
    pub fn new() -> (r: Self)
        ensures
            r@ == Map::<u128, NodeMetrics>::empty(),
    {
        MetricsTable { map: HashMap::new() }
    }

    /// Record the metrics of the chunk at `a`.
    pub fn insert(&mut self, a: &QuadtreeAddress, m: NodeMetrics)
        ensures
            final(self)@ == old(self)@.insert(node_key(*a), m),
    {
        let k = address_key(a);
        self.map.insert(k, m);
    }

    /// The metrics recorded for `a`, if any.
    pub fn get(&self, a: &QuadtreeAddress) -> (r: Option<NodeMetrics>)
        ensures
            match r {
                Some(m) => self@.contains_key(node_key(*a)) && m == self@[node_key(*a)],
                None => !self@.contains_key(node_key(*a)),
            },
    {
        let k = address_key(a);
        match self.map.get(&k) {
            Some(m) => Some(*m),
            None => None,
        }
    }
}

/// The metrics of the chunk at `a`.
pub open spec fn metric(mt: Map<u128, NodeMetrics>, a: QuadtreeAddress) -> NodeMetrics {
    mt[node_key(a)]
}

/// `a` is the chunk `n` or one of its four children.
pub open spec fn requested_for(n: QuadtreeAddress, a: QuadtreeAddress) -> bool {
    a == n || a == n.spec_child(0) || a == n.spec_child(1) || a == n.spec_child(2) || a == n.spec_child(3)
}

/// `a` is a node of `nodes` or a child of one.
#[verifier::opaque]
pub open spec fn requested(nodes: Map<u128, QuadtreeNode>, a: QuadtreeAddress) -> bool {
    exists|k: u128| nodes.contains_key(k) && #[trigger] requested_for(nodes[k].address, a)
}

/// The nodes at `keys`, in order, each followed by its four children.
pub open spec fn requests_of(nodes: Map<u128, QuadtreeNode>, keys: Seq<u128>) -> Seq<QuadtreeAddress>
    decreases keys.len(),
{
    if keys.len() == 0 {
        Seq::empty()
    } else {
        let a = nodes[keys.last()].address;
        requests_of(nodes, keys.drop_last()) + seq![
            a,
            a.spec_child(0),
            a.spec_child(1),
            a.spec_child(2),
            a.spec_child(3),
        ]
    }
}

/// What `requests_of` holds: exactly the chunks requested for one of the keys.
proof fn lemma_requests_of_contains(nodes: Map<u128, QuadtreeNode>, keys: Seq<u128>)
    ensures
        forall|x: QuadtreeAddress|
            requests_of(nodes, keys).contains(x) <==> exists|j: int|
                0 <= j < keys.len() && #[trigger] requested_for(nodes[keys[j]].address, x),
    decreases keys.len(),
{
    if keys.len() > 0 {
        let rest = keys.drop_last();
        lemma_requests_of_contains(nodes, rest);
        let a = nodes[keys.last()].address;
        let added = seq![a, a.spec_child(0), a.spec_child(1), a.spec_child(2), a.spec_child(3)];
        let all = requests_of(nodes, keys);
        assert(all == requests_of(nodes, rest) + added);
        assert forall|x: QuadtreeAddress| all.contains(x) <==> exists|j: int|
            0 <= j < keys.len() && #[trigger] requested_for(nodes[keys[j]].address, x) by {
            if all.contains(x) {
                let i = choose|i: int| 0 <= i < all.len() && all[i] == x;
                if i < requests_of(nodes, rest).len() {
                    assert(requests_of(nodes, rest)[i] == x);
                    assert(requests_of(nodes, rest).contains(x));
                    let j = choose|j: int| 0 <= j < rest.len() && #[trigger] requested_for(nodes[rest[j]].address, x);
                    assert(keys[j] == rest[j]);
                } else {
                    assert(added[i - requests_of(nodes, rest).len()] == x);
                    assert(requested_for(nodes[keys[keys.len() - 1]].address, x));
                }
            }
            if exists|j: int| 0 <= j < keys.len() && #[trigger] requested_for(nodes[keys[j]].address, x) {
                let j = choose|j: int| 0 <= j < keys.len() && #[trigger] requested_for(nodes[keys[j]].address, x);
                if j < keys.len() - 1 {
                    assert(rest[j] == keys[j]);
                    assert(requested_for(nodes[rest[j]].address, x));
                    let front = requests_of(nodes, rest);
                    assert(front.contains(x));
                    let i = choose|i: int| 0 <= i < front.len() && front[i] == x;
                    assert((front + added)[i] == front[i]);
                    assert(all[i] == x);
                } else {
                    let n = requests_of(nodes, rest).len() as int;
                    if x == a {
                        assert(all[n] == x);
                    } else if x == a.spec_child(0) {
                        assert(all[n + 1] == x);
                    } else if x == a.spec_child(1) {
                        assert(all[n + 2] == x);
                    } else if x == a.spec_child(2) {
                        assert(all[n + 3] == x);
                    } else {
                        assert(all[n + 4] == x);
                    }
                }
            }
        }
    }
}

/// The table holds the metrics of every node of `nodes` and of their children.
pub open spec fn covers(mt: Map<u128, NodeMetrics>, nodes: Map<u128, QuadtreeNode>) -> bool {
    &&& forall|k: u128| #[trigger] nodes.contains_key(k) ==> mt.contains_key(k)
    &&& forall|k: u128, q: u8|
        #![trigger nodes[k].address.spec_child(q)]
        nodes.contains_key(k) && q < 4 ==> mt.contains_key(node_key(nodes[k].address.spec_child(q)))
}

/// A leaf (or generating) chunk at `a` splits: it is above both the
/// configured maximum depth and the subdivision limit, and the observer is near.
pub open spec fn wants_subdivision(a: QuadtreeAddress, mt: Map<u128, NodeMetrics>, max_depth: u8) -> bool {
    &&& a.depth < max_depth
    &&& a.depth < SUBDIVISION_DEPTH_LIMIT
    &&& metric(mt, a).within_subdivision_range
}

/// A subdivided chunk at `a` gives up its children: it is not a root and
/// the observer is far from its parent.
pub open spec fn wants_merge(a: QuadtreeAddress, mt: Map<u128, NodeMetrics>) -> bool {
    a.depth > 0 && metric(mt, a).beyond_merge_range
}

/// The key of the child of `a` in `quadrant`.
pub open spec fn child_key(a: QuadtreeAddress, quadrant: u8) -> u128 {
    node_key(a.spec_child(quadrant))
}

/// All four children of `a` are present and are leaves.
pub open spec fn all_children_are_leaves(nodes: Map<u128, QuadtreeNode>, a: QuadtreeAddress) -> bool {
    forall|q: u8|
        q < 4 ==> nodes.contains_key(#[trigger] child_key(a, q)) && nodes[child_key(a, q)].state
            == ChunkState::Leaf
}

/// `c` alone if its node has a mesh, else nothing.
pub open spec fn if_meshed(nodes: Map<u128, QuadtreeNode>, c: QuadtreeAddress) -> Seq<QuadtreeAddress> {
    if nodes[node_key(c)].entity is Some {
        seq![c]
    } else {
        Seq::empty()
    }
}

/// The children of `a` that have a mesh, in quadrant order.
pub open spec fn children_with_entities(nodes: Map<u128, QuadtreeNode>, a: QuadtreeAddress) -> Seq<QuadtreeAddress> {
    if_meshed(nodes, a.spec_child(0)) + if_meshed(nodes, a.spec_child(1)) + if_meshed(nodes, a.spec_child(2))
        + if_meshed(nodes, a.spec_child(3))
}

/// `nodes` without the four children of `a`.
pub open spec fn without_children(nodes: Map<u128, QuadtreeNode>, a: QuadtreeAddress) -> Map<u128, QuadtreeNode> {
    nodes.remove(child_key(a, 0)).remove(child_key(a, 1)).remove(child_key(a, 2)).remove(child_key(a, 3))
}

/// `nodes` with four fresh leaves for the children of `a`.
pub open spec fn with_children(nodes: Map<u128, QuadtreeNode>, a: QuadtreeAddress) -> Map<u128, QuadtreeNode> {
    nodes.insert(child_key(a, 0), fresh_leaf(a.spec_child(0)))
        .insert(child_key(a, 1), fresh_leaf(a.spec_child(1)))
        .insert(child_key(a, 2), fresh_leaf(a.spec_child(2)))
        .insert(child_key(a, 3), fresh_leaf(a.spec_child(3)))
}

/// The four children of `a` with their distance keys, in quadrant order.
pub open spec fn children_spawns(a: QuadtreeAddress, mt: Map<u128, NodeMetrics>) -> Seq<(QuadtreeAddress, u32)> {
    seq![
        (a.spec_child(0), metric(mt, a.spec_child(0)).distance_key),
        (a.spec_child(1), metric(mt, a.spec_child(1)).distance_key),
        (a.spec_child(2), metric(mt, a.spec_child(2)).distance_key),
        (a.spec_child(3), metric(mt, a.spec_child(3)).distance_key),
    ]
}

/// The state of an update part way through: the nodes, the chunks waiting to
/// split (with their distance keys), the chunks to show and the chunks to hide.
pub ghost struct UpdatePass {
    pub nodes: Map<u128, QuadtreeNode>,
    pub candidates: Seq<(QuadtreeAddress, u32)>,
    pub spawns: Seq<(QuadtreeAddress, u32)>,
    pub despawns: Seq<QuadtreeAddress>,
}

/// First pass, one key: a leaf that wants to split becomes a candidate; a
/// subdivided chunk that wants to merge, and whose children are all leaves,
/// loses its children (those with a mesh are hidden) and becomes a leaf to show.
pub open spec fn pass_one_step(p: UpdatePass, k: u128, mt: Map<u128, NodeMetrics>, max_depth: u8) -> UpdatePass {
    if !p.nodes.contains_key(k) {
        p
    } else {
        let node = p.nodes[k];
        let a = node.address;
        if node.state == ChunkState::Subdivided {
            if wants_merge(a, mt) && all_children_are_leaves(p.nodes, a) {
                UpdatePass {
                    nodes: without_children(p.nodes, a).insert(k, QuadtreeNode { state: ChunkState::Leaf, ..node }),
                    candidates: p.candidates,
                    spawns: p.spawns.push((a, metric(mt, a).distance_key)),
                    despawns: p.despawns + children_with_entities(p.nodes, a),
                }
            } else {
                p
            }
        } else if wants_subdivision(a, mt, max_depth) {
            UpdatePass { candidates: p.candidates.push((a, metric(mt, a).distance_key)), ..p }
        } else {
            p
        }
    }
}

/// First pass over the keys in `order`.
pub open spec fn pass_one(nodes: Map<u128, QuadtreeNode>, order: Seq<u128>, mt: Map<u128, NodeMetrics>, max_depth: u8) -> UpdatePass
    decreases order.len(),
{
    if order.len() == 0 {
        UpdatePass { nodes, candidates: Seq::empty(), spawns: Seq::empty(), despawns: Seq::empty() }
    } else {
        pass_one_step(pass_one(nodes, order.drop_last(), mt, max_depth), order.last(), mt, max_depth)
    }
}

/// Second pass, one chosen candidate: if it is still present it becomes
/// subdivided and gets four fresh leaf children, which are to be shown.
pub open spec fn pass_two_step(p: UpdatePass, c: (QuadtreeAddress, u32), mt: Map<u128, NodeMetrics>) -> UpdatePass {
    let k = node_key(c.0);
    if !p.nodes.contains_key(k) {
        p
    } else {
        let node = p.nodes[k];
        let a = node.address;
        UpdatePass {
            nodes: with_children(p.nodes.insert(k, QuadtreeNode { state: ChunkState::Subdivided, ..node }), a),
            spawns: p.spawns + children_spawns(a, mt),
            ..p
        }
    }
}

/// Second pass over the chosen candidates, in order.
pub open spec fn pass_two(p: UpdatePass, chosen: Seq<(QuadtreeAddress, u32)>, mt: Map<u128, NodeMetrics>) -> UpdatePass
    decreases chosen.len(),
{
    if chosen.len() == 0 {
        p
    } else {
        pass_two_step(pass_two(p, chosen.drop_last(), mt), chosen.last(), mt)
    }
}

/// The position at which an entry with distance key `d` goes into `s`:
/// before the first entry with a greater key.
pub open spec fn insertion_point(s: Seq<(QuadtreeAddress, u32)>, d: u32) -> int
    decreases s.len(),
{
    if s.len() == 0 {
        0
    } else if s[0].1 > d {
        0
    } else {
        1 + insertion_point(s.drop_first(), d)
    }
}

/// Stable sort by distance key, closest first; entries with equal keys keep
/// their order.
pub open spec fn sort_by_distance(s: Seq<(QuadtreeAddress, u32)>) -> Seq<(QuadtreeAddress, u32)>
    decreases s.len(),
{
    if s.len() == 0 {
        s
    } else {
        let sorted = sort_by_distance(s.drop_last());
        sorted.insert(insertion_point(sorted, s.last().1), s.last())
    }
}

/// How many candidates may split: all of them for a budget of 0, else at most the budget.
pub open spec fn subdivision_limit(budget: usize, candidates: nat) -> nat {
    if budget > 0 && budget < candidates {
        budget as nat
    } else {
        candidates
    }
}

/// The outcome of an update that walks the nodes in `order`: the new nodes,
/// the chunks to show (closest first) and the chunks to hide.
pub open spec fn spec_update(
    nodes: Map<u128, QuadtreeNode>,
    order: Seq<u128>,
    mt: Map<u128, NodeMetrics>,
    max_depth: u8,
    budget: usize,
) -> (Map<u128, QuadtreeNode>, Seq<QuadtreeAddress>, Seq<QuadtreeAddress>) {
    let first = pass_one(nodes, order, mt, max_depth);
    let sorted = sort_by_distance(first.candidates);
    let chosen = sorted.take(subdivision_limit(budget, sorted.len()) as int);
    let second = pass_two(first, chosen, mt);
    (second.nodes, sort_by_distance(second.spawns).map_values(|e: (QuadtreeAddress, u32)| e.0), second.despawns)
}

/// Sorts `v` by distance key, closest first, keeping the order of equal keys.
fn sort_entries(v: &Vec<(QuadtreeAddress, u32)>) -> (r: Vec<(QuadtreeAddress, u32)>)
    ensures
        r@ == sort_by_distance(v@),
{
    let mut out: Vec<(QuadtreeAddress, u32)> = Vec::new();
    let mut i: usize = 0;
    while i < v.len()
        invariant
            i <= v.len(),
            out@ == sort_by_distance(v@.take(i as int)),
        decreases v.len() - i,
    {
        let e = v[i];
        let mut p: usize = 0;
        proof {
            assert(out@.skip(0) =~= out@);
        }
        while p < out.len() && out[p].1 <= e.1
            invariant
                p <= out.len(),
                insertion_point(out@, e.1) == p + insertion_point(out@.skip(p as int), e.1),
            decreases out.len() - p,
        {
            proof {
                assert(out@.skip(p as int).drop_first() =~= out@.skip(p + 1));
            }
            p = p + 1;
        }
        proof {
            if p < out.len() {
                assert(out@.skip(p as int)[0] == out@[p as int]);
            } else {
                assert(out@.skip(p as int).len() == 0);
            }
            assert(v@.take(i + 1).drop_last() =~= v@.take(i as int));
            assert(v@.take(i + 1).last() == e);
        }
        out.insert(p, e);
        i = i + 1;
    }
    proof {
        assert(v@.take(v.len() as int) =~= v@);
    }
    out
}

/// `nodes` with a fresh leaf root for each face below `count`.
pub open spec fn roots_upto(nodes: Map<u128, QuadtreeNode>, count: nat) -> Map<u128, QuadtreeNode>
    decreases count,
{
    if count == 0 {
        nodes
    } else {
        let root = QuadtreeAddress::spec_root((count - 1) as u8);
        roots_upto(nodes, (count - 1) as nat).insert(node_key(root), fresh_leaf(root))
    }
}

/// `nodes` with a fresh leaf root for each of the six faces.
pub open spec fn with_roots(nodes: Map<u128, QuadtreeNode>) -> Map<u128, QuadtreeNode> {
    roots_upto(nodes, 6)
}

/// `nodes` with the state of the node at `a` (if any) set to `state`.
pub open spec fn with_state(nodes: Map<u128, QuadtreeNode>, a: QuadtreeAddress, state: ChunkState) -> Map<u128, QuadtreeNode> {
    if nodes.contains_key(node_key(a)) {
        nodes.insert(node_key(a), QuadtreeNode { state, ..nodes[node_key(a)] })
    } else {
        nodes
    }
}

/// Manages the quadtree structure for a single planet
pub struct QuadtreeManager {
    /// All nodes in the quadtree, keyed by address
    pub nodes: NodeMap,
    /// Maximum depth of subdivision
    pub max_depth: u8,
}

impl QuadtreeManager {
    /// An empty tree that subdivides down to depth 20.
    pub fn new() -> (r: Self)
        ensures
            r.nodes@ == Map::<u128, QuadtreeNode>::empty(),
            r.max_depth == 20,
    {
        QuadtreeManager { nodes: NodeMap::new(), max_depth: 20 }
    }

    /// Initialize the quadtree with a leaf root node for each of the six faces
    pub fn initialize(&mut self)
        ensures
            final(self).nodes@ == with_roots(old(self).nodes@),
            final(self).max_depth == old(self).max_depth,
            keys_match(final(self).nodes@),
            old(self).nodes@ == Map::<u128, QuadtreeNode>::empty() ==> valid_tree(final(self).nodes@, final(self).max_depth),
    {
        let mut face: u8 = 0;
        while face < 6
            invariant
                face <= 6,
                self.nodes@ == roots_upto(old(self).nodes@, face as nat),
                self.max_depth == old(self).max_depth,
            decreases 6 - face,
        {
            let address = QuadtreeAddress::root(face);
            proof {
                assert(crate::plugins::quadtree::pow4(0) == 1);
            }
            self.nodes.insert(QuadtreeNode { address, state: ChunkState::Leaf, entity: None });
            face = face + 1;
        }
        self.nodes.entries_match();
        proof {
            law_initial_tree_valid(self.max_depth);
        }
    }


    /// Check if all children of a subdivided node have loaded entities (meshes ready)
    pub fn all_children_loaded(&self, address: &QuadtreeAddress) -> (r: bool)
        requires
            address.depth < 31,
        ensures
            r == forall|q: u8|
                q < 4 ==> self.nodes@.contains_key(#[trigger] child_key(*address, q))
                    && self.nodes@[child_key(*address, q)].entity is Some,
    {
        let mut q: u8 = 0;
        while q < 4
            invariant
                q <= 4,
                address.depth < 31,
                forall|q2: u8|
                    q2 < q ==> self.nodes@.contains_key(#[trigger] child_key(*address, q2))
                        && self.nodes@[child_key(*address, q2)].entity is Some,
            decreases 4 - q,
        {
            let c = address.child(q);
            proof {
                assert(child_key(*address, q) == node_key(c));
            }
            match self.nodes.get(&c) {
                Some(node) => {
                    if node.entity.is_none() {
                        return false;
                    }
                },
                None => {
                    return false;
                },
            }
            q = q + 1;
        }
        true
    }

    /// Get addresses of subdivided nodes that still have entities (parents acting as fallback)
    pub fn get_fallback_parents(&self) -> (r: Vec<QuadtreeAddress>)
        ensures
            r@.no_duplicates(),
            forall|a: QuadtreeAddress|
                r@.contains(a) <==> (self.nodes.has(a) && self.nodes.node(a).state == ChunkState::Subdivided
                    && self.nodes.node(a).entity is Some),
    {
        broadcast use vstd::seq_lib::lemma_seq_contains_after_push;

        self.nodes.entries_match();
        let keys = self.nodes.keys();
        let mut r: Vec<QuadtreeAddress> = Vec::new();
        let mut i: usize = 0;
        while i < keys.len()
            invariant
                i <= keys.len(),
                keys@.no_duplicates(),
                keys@.to_set() == self.nodes@.dom(),
                keys_match(self.nodes@),
                r@.no_duplicates(),
                forall|a: QuadtreeAddress|
                    r@.contains(a) <==> keys@.take(i as int).contains(node_key(a)) && self.nodes.has(a)
                        && self.nodes.node(a).state == ChunkState::Subdivided && self.nodes.node(a).entity is Some,
            decreases keys.len() - i,
        {
            let k = keys[i];
            let ghost r_old = r@;
            let ghost before = keys@.take(i as int);
            proof {
                assert(keys@.take(i + 1) =~= before.push(k));
                if before.contains(k) {
                    let m = choose|m: int| 0 <= m < before.len() && before[m] == k;
                    assert(keys@[m] == keys@[i as int]);
                }
            }
            let found = self.nodes.get_by_key(k);
            let take_it = match found {
                Some(node) => node.state == ChunkState::Subdivided && node.entity.is_some(),
                None => false,
            };
            if take_it {
                r.push(found.unwrap().address);
            }
            proof {
                assert forall|a: QuadtreeAddress|
                    r@.contains(a) <==> keys@.take(i + 1).contains(node_key(a)) && self.nodes.has(a)
                        && self.nodes.node(a).state == ChunkState::Subdivided && self.nodes.node(a).entity is Some by {
                    vstd::seq_lib::lemma_seq_contains_after_push(before, k, node_key(a));
                    if take_it {
                        vstd::seq_lib::lemma_seq_contains_after_push(r_old, self.nodes@[k].address, a);
                    }
                    if node_key(a) == k && self.nodes.has(a) {
                        law_node_key_injective(a, self.nodes@[k].address);
                    }
                }
                if take_it {
                    assert(!r_old.contains(self.nodes@[k].address));
                }
            }
            i = i + 1;
        }
        proof {
            assert(keys@.take(keys.len() as int) =~= keys@);
            assert forall|a: QuadtreeAddress| self.nodes.has(a) implies keys@.contains(node_key(a)) by {
                assert(keys@.to_set().contains(node_key(a)));
            }
        }
        r
    }

    /// Get all leaf nodes that should be rendered
    pub fn get_visible_chunks(&self) -> (r: Vec<QuadtreeNode>)
        ensures
            forall|n: QuadtreeNode| r@.contains(n) <==> (self.nodes.has(n.address) && self.nodes.node(n.address) == n
                && n.state == ChunkState::Leaf),
            r.len() <= self.nodes@.len(),
            r@.no_duplicates(),
    {
        broadcast use vstd::seq_lib::lemma_seq_contains_after_push;

        self.nodes.entries_match();
        let keys = self.nodes.keys();
        let mut r: Vec<QuadtreeNode> = Vec::new();
        let mut i: usize = 0;
        proof {
            keys@.unique_seq_to_set();
        }
        while i < keys.len()
            invariant
                i <= keys.len(),
                keys@.no_duplicates(),
                keys@.to_set() == self.nodes@.dom(),
                keys.len() == self.nodes@.len(),
                keys_match(self.nodes@),
                r.len() <= i,
                r@.no_duplicates(),
                forall|n: QuadtreeNode|
                    r@.contains(n) <==> keys@.take(i as int).contains(node_key(n.address)) && self.nodes.has(n.address)
                        && self.nodes.node(n.address) == n && n.state == ChunkState::Leaf,
            decreases keys.len() - i,
        {
            let k = keys[i];
            let ghost r_old = r@;
            let ghost before = keys@.take(i as int);
            proof {
                assert(keys@.take(i + 1) =~= before.push(k));
            }
            let found = self.nodes.get_by_key(k);
            let take_it = match found {
                Some(node) => node.state == ChunkState::Leaf,
                None => false,
            };
            proof {
                if take_it {
                    assert(!before.contains(k)) by {
                        if before.contains(k) {
                            let j = choose|j: int| 0 <= j < before.len() && before[j] == k;
                            assert(keys@[j] == keys@[i as int]);
                        }
                    }
                    assert(node_key(self.nodes@[k].address) == k);
                    assert(!r_old.contains(self.nodes@[k]));
                }
            }
            if take_it {
                r.push(found.unwrap());
            }
            proof {
                assert forall|n: QuadtreeNode|
                    r@.contains(n) <==> keys@.take(i + 1).contains(node_key(n.address)) && self.nodes.has(n.address)
                        && self.nodes.node(n.address) == n && n.state == ChunkState::Leaf by {
                    vstd::seq_lib::lemma_seq_contains_after_push(before, k, node_key(n.address));
                    if take_it {
                        vstd::seq_lib::lemma_seq_contains_after_push(r_old, self.nodes@[k], n);
                    }
                    if node_key(n.address) == k && self.nodes.has(n.address) {
                        law_node_key_injective(n.address, self.nodes@[k].address);
                    }
                }
            }
            i = i + 1;
        }
        proof {
            assert(keys@.take(keys.len() as int) =~= keys@);
            assert forall|n: QuadtreeNode| self.nodes.has(n.address) implies keys@.contains(node_key(n.address)) by {
                assert(keys@.to_set().contains(node_key(n.address)));
            }
        }
        r
    }

    /// Mark a chunk as having an entity
    pub fn set_entity(&mut self, address: QuadtreeAddress, entity: u64)
        ensures
            keys_match(final(self).nodes@),
            final(self).max_depth == old(self).max_depth,
            final(self).nodes@ == if old(self).nodes.has(address) {
                old(self).nodes@.insert(
                    node_key(address),
                    QuadtreeNode { entity: Some(entity), ..old(self).nodes.node(address) },
                )
            } else {
                old(self).nodes@
            },
    {
        self.nodes.entries_match();
        if let Some(node) = self.nodes.get(&address) {
            let updated = QuadtreeNode { entity: Some(entity), ..*node };
            self.nodes.insert(updated);
        }
        self.nodes.entries_match();
    }

    /// Mark a chunk as generating
    pub fn set_generating(&mut self, address: QuadtreeAddress)
        ensures
            keys_match(final(self).nodes@),
            final(self).max_depth == old(self).max_depth,
            final(self).nodes@ == with_state(old(self).nodes@, address, ChunkState::Generating),
    {
        self.set_state(address, ChunkState::Generating);
    }

    /// Mark a chunk as done generating (back to leaf)
    pub fn set_generated(&mut self, address: QuadtreeAddress)
        ensures
            keys_match(final(self).nodes@),
            final(self).max_depth == old(self).max_depth,
            final(self).nodes@ == with_state(old(self).nodes@, address, ChunkState::Leaf),
    {
        self.set_state(address, ChunkState::Leaf);
    }

    fn set_state(&mut self, address: QuadtreeAddress, state: ChunkState)
        ensures
            keys_match(final(self).nodes@),
            final(self).max_depth == old(self).max_depth,
            final(self).nodes@ == with_state(old(self).nodes@, address, state),
    {
        self.nodes.entries_match();
        if let Some(node) = self.nodes.get(&address) {
            let updated = QuadtreeNode { state, ..*node };
            self.nodes.insert(updated);
        }
        self.nodes.entries_match();
    }

    /// The addresses whose metrics an update needs: every node and every
    /// child of a node.
    pub fn metric_requests(&self) -> (r: Vec<QuadtreeAddress>)
        ensures
            forall|a: QuadtreeAddress| r@.contains(a) <==> requested(self.nodes@, a),
            forall|t: MetricsTable|
                (forall|i: int| 0 <= i < r.len() ==> t@.contains_key(node_key(#[trigger] r@[i]))) ==> covers(
                    t@,
                    self.nodes@,
                ),
    {
        self.nodes.entries_match();
        let keys = self.nodes.keys();
        let mut r: Vec<QuadtreeAddress> = Vec::new();
        let mut i: usize = 0;
        while i < keys.len()
            invariant
                i <= keys.len(),
                keys@.to_set() == self.nodes@.dom(),
                keys_match(self.nodes@),
                r@ == requests_of(self.nodes@, keys@.take(i as int)),
            decreases keys.len() - i,
        {
            let k = keys[i];
            proof {
                assert(keys@.take(i + 1).drop_last() =~= keys@.take(i as int));
                assert(keys@.to_set().contains(k));
            }
            let node = self.nodes.get_by_key(k).unwrap();
            let a = node.address;
            let children = a.children();
            r.push(a);
            r.push(children[0]);
            r.push(children[1]);
            r.push(children[2]);
            r.push(children[3]);
            proof {
                assert(r@ =~= requests_of(self.nodes@, keys@.take(i + 1)));
            }
            i = i + 1;
        }
        proof {
            assert(keys@.take(keys.len() as int) =~= keys@);
            lemma_requests_of_contains(self.nodes@, keys@);
            reveal(requested);
            assert forall|a: QuadtreeAddress| r@.contains(a) <==> requested(self.nodes@, a) by {
                if requested(self.nodes@, a) {
                    let k = choose|k: u128| self.nodes@.contains_key(k) && #[trigger] requested_for(self.nodes@[k].address, a);
                    assert(keys@.to_set().contains(k));
                    let j = choose|j: int| 0 <= j < keys@.len() && keys@[j] == k;
                    assert(requested_for(self.nodes@[keys@[j]].address, a));
                }
                if r@.contains(a) {
                    let j = choose|j: int| 0 <= j < keys@.len() && #[trigger] requested_for(self.nodes@[keys@[j]].address, a);
                    assert(keys@.to_set().contains(keys@[j]));
                }
            }
            assert forall|t: MetricsTable|
                (forall|i: int| 0 <= i < r.len() ==> t@.contains_key(node_key(#[trigger] r@[i]))) implies covers(
                    t@,
                    self.nodes@,
                ) by {
                assert forall|k: u128| #[trigger] self.nodes@.contains_key(k) implies t@.contains_key(k) by {
                    let a = self.nodes@[k].address;
                    assert(requested_for(self.nodes@[k].address, a));
                    assert(r@.contains(a));
                    let j = choose|j: int| 0 <= j < r.len() && r@[j] == a;
                }
                assert forall|k: u128, q: u8|
                    self.nodes@.contains_key(k) && q < 4 implies t@.contains_key(
                    node_key(#[trigger] self.nodes@[k].address.spec_child(q)),
                ) by {
                    let c = self.nodes@[k].address.spec_child(q);
                    assert(requested_for(self.nodes@[k].address, c)) by {
                        if q == 0 {
                        } else if q == 1 {
                        } else if q == 2 {
                        } else {
                        }
                    }
                    assert(r@.contains(c));
                    let j = choose|j: int| 0 <= j < r.len() && r@[j] == c;
                }
            }
        }
        r
    }

    /// Clear the entity reference of a chunk (its mesh was removed)
    pub fn clear_entity(&mut self, address: QuadtreeAddress)
        ensures
            keys_match(final(self).nodes@),
            final(self).max_depth == old(self).max_depth,
            final(self).nodes@ == if old(self).nodes.has(address) {
                old(self).nodes@.insert(node_key(address), QuadtreeNode { entity: None, ..old(self).nodes.node(address) })
            } else {
                old(self).nodes@
            },
    {
        self.nodes.entries_match();
        if let Some(node) = self.nodes.get(&address) {
            let updated = QuadtreeNode { entity: None, ..*node };
            self.nodes.insert(updated);
        }
        self.nodes.entries_match();
    }

    /// Subdivided parents that still show a mesh although all four children
    /// have theirs: their mesh can now be hidden.
    pub fn parents_ready_to_hide(&self) -> (r: Vec<QuadtreeAddress>)
        ensures
            r@.no_duplicates(),
            forall|a: QuadtreeAddress|
                r@.contains(a) <==> {
                    &&& self.nodes.has(a)
                    &&& self.nodes.node(a).state == ChunkState::Subdivided
                    &&& self.nodes.node(a).entity is Some
                    &&& forall|q: u8|
                        q < 4 ==> self.nodes@.contains_key(#[trigger] child_key(a, q))
                            && self.nodes@[child_key(a, q)].entity is Some
                },
    {
        broadcast use vstd::seq_lib::lemma_seq_contains_after_push;

        self.nodes.entries_match();
        let fallback = self.get_fallback_parents();
        let mut r: Vec<QuadtreeAddress> = Vec::new();
        let mut i: usize = 0;
        while i < fallback.len()
            invariant
                i <= fallback.len(),
                keys_match(self.nodes@),
                fallback@.no_duplicates(),
                forall|a: QuadtreeAddress|
                    fallback@.contains(a) <==> (self.nodes.has(a) && self.nodes.node(a).state == ChunkState::Subdivided
                        && self.nodes.node(a).entity is Some),
                r@.no_duplicates(),
                forall|a: QuadtreeAddress|
                    r@.contains(a) <==> fallback@.take(i as int).contains(a) && forall|q: u8|
                        q < 4 ==> self.nodes@.contains_key(#[trigger] child_key(a, q))
                            && self.nodes@[child_key(a, q)].entity is Some,
            decreases fallback.len() - i,
        {
            let a = fallback[i];
            let ghost r_old = r@;
            let ghost before = fallback@.take(i as int);
            proof {
                assert(fallback@.take(i + 1) =~= before.push(a));
                assert(fallback@.contains(a));
                let k = node_key(a);
                assert(self.nodes@.contains_key(k));
                assert(node_ok(self.nodes@[k]));
                law_node_key_injective(self.nodes@[k].address, a);
                if before.contains(a) {
                    let m = choose|m: int| 0 <= m < before.len() && before[m] == a;
                    assert(fallback@[m] == fallback@[i as int]);
                }
            }
            let ready = self.all_children_loaded(&a);
            proof {
                if r_old.contains(a) {
                    assert(before.contains(a));
                }
            }
            if ready {
                r.push(a);
            }
            proof {
                assert forall|b: QuadtreeAddress|
                    r@.contains(b) <==> fallback@.take(i + 1).contains(b) && forall|q: u8|
                        q < 4 ==> self.nodes@.contains_key(#[trigger] child_key(b, q))
                            && self.nodes@[child_key(b, q)].entity is Some by {
                    vstd::seq_lib::lemma_seq_contains_after_push(before, a, b);
                    if ready {
                        vstd::seq_lib::lemma_seq_contains_after_push(r_old, a, b);
                    }
                }
            }
            i = i + 1;
        }
        proof {
            assert(fallback@.take(fallback.len() as int) =~= fallback@);
        }
        r
    }

    /// The four children of `a` are all present and are leaves.
    fn all_children_are_leaves(&self, a: &QuadtreeAddress) -> (r: bool)
        requires
            a.depth < 31,
        ensures
            r == all_children_are_leaves(self.nodes@, *a),
    {
        let mut q: u8 = 0;
        while q < 4
            invariant
                q <= 4,
                a.depth < 31,
                forall|q2: u8|
                    q2 < q ==> self.nodes@.contains_key(#[trigger] child_key(*a, q2))
                        && self.nodes@[child_key(*a, q2)].state == ChunkState::Leaf,
            decreases 4 - q,
        {
            let c = a.child(q);
            proof {
                assert(child_key(*a, q) == node_key(c));
            }
            match self.nodes.get(&c) {
                Some(n) => {
                    if n.state != ChunkState::Leaf {
                        return false;
                    }
                },
                None => {
                    return false;
                },
            }
            q = q + 1;
        }
        true
    }

    /// Remove the child `c`, recording it for despawning when it has a mesh.
    fn drop_child(&mut self, c: &QuadtreeAddress, to_despawn: &mut Vec<QuadtreeAddress>)
        ensures
            final(self).nodes@ == old(self).nodes@.remove(node_key(*c)),
            final(self).max_depth == old(self).max_depth,
            old(self).nodes@.contains_key(node_key(*c)) ==> final(to_despawn)@ == old(to_despawn)@ + if_meshed(
                old(self).nodes@,
                *c,
            ),
    {
        if let Some(child_node) = self.nodes.get(c) {
            if child_node.entity.is_some() {
                to_despawn.push(*c);
            }
        }
        self.nodes.remove(c);
    }

    /// Add a fresh leaf for `c`, recording it (with its distance key) for spawning.
    fn spawn_child(&mut self, c: &QuadtreeAddress, metrics: &MetricsTable, to_spawn: &mut Vec<(QuadtreeAddress, u32)>)
        requires
            node_ok(fresh_leaf(*c)),
            metrics@.contains_key(node_key(*c)),
        ensures
            final(self).nodes@ == old(self).nodes@.insert(node_key(*c), fresh_leaf(*c)),
            final(self).max_depth == old(self).max_depth,
            final(to_spawn)@ == old(to_spawn)@.push((*c, metric(metrics@, *c).distance_key)),
    {
        self.nodes.insert(QuadtreeNode { address: *c, state: ChunkState::Leaf, entity: None });
        let m = metrics.get(c).unwrap();
        to_spawn.push((*c, m.distance_key));
    }

    /// Update the quadtree for an observer, from the metrics of the chunks
    /// as seen by that observer. Returns the chunks to spawn, sorted closest
    /// first, and the chunks to despawn.
    ///
    /// `max_subdivisions` limits how many nodes can subdivide per call, so
    /// that a jump of the camera does not freeze a frame; 0 means no limit.
    /// The closest candidates subdivide first. Merges are never limited.
    pub fn update(&mut self, metrics: &MetricsTable, max_subdivisions: usize) -> (r: (
        Vec<QuadtreeAddress>,
        Vec<QuadtreeAddress>,
    ))
        requires
            covers(metrics@, old(self).nodes@),
        ensures
            final(self).max_depth == old(self).max_depth,
            exists|order: Seq<u128>|
                {
                    &&& order.no_duplicates()
                    &&& order.to_set() == old(self).nodes@.dom()
                    &&& spec_update(old(self).nodes@, order, metrics@, old(self).max_depth, max_subdivisions) == (
                        final(self).nodes@,
                        r.0@,
                        r.1@,
                    )
                },
            tree_shaped(old(self).nodes@) ==> tree_shaped(final(self).nodes@),
            keys_match(final(self).nodes@),
            valid_tree(old(self).nodes@, old(self).max_depth) ==> valid_tree(final(self).nodes@, old(self).max_depth),
            tree_shaped(old(self).nodes@) ==> roots_of(final(self).nodes@) == roots_of(old(self).nodes@),
            tree_shaped(old(self).nodes@) && depth_bounded(old(self).nodes@, old(self).max_depth) ==> depth_bounded(
                final(self).nodes@,
                old(self).max_depth,
            ),
            tree_shaped(old(self).nodes@) ==> forall|i: int|
                0 <= i < r.1@.len() ==> old(self).nodes.has(#[trigger] r.1@[i]) && old(self).nodes.node(
                    r.1@[i],
                ).entity is Some && !final(self).nodes.has(r.1@[i]),
            tree_shaped(old(self).nodes@) && hysteresis(metrics@, old(self).max_depth) ==> {
                ||| final(self).nodes@ == old(self).nodes@ && r.0@.len() == 0 && r.1@.len() == 0
                ||| pending_work(final(self).nodes@, metrics@, old(self).max_depth) < pending_work(
                    old(self).nodes@,
                    metrics@,
                    old(self).max_depth,
                )
            },
    {
        let ghost nodes0 = self.nodes@;
        proof {
            assert(self.nodes.map@.dom().finite());
        }
        self.nodes.entries_match();
        let order = self.nodes.keys();
        let max_depth = self.max_depth;
        let mut candidates: Vec<(QuadtreeAddress, u32)> = Vec::new();
        let mut to_spawn: Vec<(QuadtreeAddress, u32)> = Vec::new();
        let mut to_despawn: Vec<QuadtreeAddress> = Vec::new();

        // Pass 1: find subdivision candidates and process merges.
        let mut i: usize = 0;
        while i < order.len()
            invariant
                i <= order.len(),
                order@.to_set() == nodes0.dom(),
                covers(metrics@, nodes0),
                keys_match(nodes0),
                self.max_depth == max_depth,
                forall|k: u128| #[trigger] self.nodes@.contains_key(k) ==> nodes0.contains_key(k),
                pass_one(nodes0, order@.take(i as int), metrics@, max_depth) == (UpdatePass {
                    nodes: self.nodes@,
                    candidates: candidates@,
                    spawns: to_spawn@,
                    despawns: to_despawn@,
                }),
                forall|j: int|
                    0 <= j < candidates.len() ==> {
                        let c = #[trigger] candidates@[j];
                        &&& nodes0.contains_key(node_key(c.0))
                        &&& nodes0[node_key(c.0)].address == c.0
                        &&& c.0.depth < SUBDIVISION_DEPTH_LIMIT
                    },
            decreases order.len() - i,
        {
            let k = order[i];
            proof {
                assert(order@.take(i + 1).drop_last() =~= order@.take(i as int));
                assert(order@.take(i + 1).last() == k);
            }
            self.nodes.entries_match();
            if let Some(node) = self.nodes.get_by_key(k) {
                let a = node.address;
                proof {
                    assert(nodes0.contains_key(k));
                    law_node_key_injective(a, nodes0[k].address);
                }
                let m = metrics.get(&a).unwrap();
                if node.state == ChunkState::Subdivided {
                    if a.depth > 0 && m.beyond_merge_range && self.all_children_are_leaves(&a) {
                        let ghost before = self.nodes@;
                        let ghost despawn_before = to_despawn@;
                        let children = a.children();
                        proof {
                            crate::plugins::quadtree::law_children_distinct(a, 0, 1);
                            crate::plugins::quadtree::law_children_distinct(a, 0, 2);
                            crate::plugins::quadtree::law_children_distinct(a, 0, 3);
                            crate::plugins::quadtree::law_children_distinct(a, 1, 2);
                            crate::plugins::quadtree::law_children_distinct(a, 1, 3);
                            crate::plugins::quadtree::law_children_distinct(a, 2, 3);
                            lemma_children_keys_distinct(a);
                            assert(children@[0] == a.spec_child(0));
                            assert(children@[1] == a.spec_child(1));
                            assert(children@[2] == a.spec_child(2));
                            assert(children@[3] == a.spec_child(3));
                            assert(before.contains_key(child_key(a, 0)));
                            assert(before.contains_key(child_key(a, 1)));
                            assert(before.contains_key(child_key(a, 2)));
                            assert(before.contains_key(child_key(a, 3)));
                        }
                        self.drop_child(&children[0], &mut to_despawn);
                        self.drop_child(&children[1], &mut to_despawn);
                        self.drop_child(&children[2], &mut to_despawn);
                        self.drop_child(&children[3], &mut to_despawn);
                        proof {
                            assert(if_meshed(before.remove(child_key(a, 0)), a.spec_child(1)) == if_meshed(before, a.spec_child(1)));
                            assert(if_meshed(before.remove(child_key(a, 0)).remove(child_key(a, 1)), a.spec_child(2)) == if_meshed(before, a.spec_child(2)));
                            assert(if_meshed(before.remove(child_key(a, 0)).remove(child_key(a, 1)).remove(child_key(a, 2)), a.spec_child(3)) == if_meshed(before, a.spec_child(3)));
                            assert(to_despawn@ =~= despawn_before + children_with_entities(before, a));
                        }
                        self.nodes.insert(QuadtreeNode { state: ChunkState::Leaf, ..node });
                        to_spawn.push((a, m.distance_key));
                    }
                } else if a.depth < max_depth && a.depth < SUBDIVISION_DEPTH_LIMIT && m.within_subdivision_range {
                    candidates.push((a, m.distance_key));
                }
            }
            i = i + 1;
        }
        proof {
            assert(order@.take(order.len() as int) =~= order@);
        }
        let ghost first = UpdatePass {
            nodes: self.nodes@,
            candidates: candidates@,
            spawns: to_spawn@,
            despawns: to_despawn@,
        };

        // Pass 2: sort candidates by distance, apply the budget, subdivide.
        let sorted = sort_entries(&candidates);
        proof {
            lemma_sort_members(candidates@);
        }
        let limit = if max_subdivisions > 0 && max_subdivisions < sorted.len() {
            max_subdivisions
        } else {
            sorted.len()
        };
        let ghost chosen = sorted@.take(limit as int);
        let mut j: usize = 0;
        while j < limit
            invariant
                j <= limit <= sorted.len(),
                chosen == sorted@.take(limit as int),
                covers(metrics@, nodes0),
                keys_match(nodes0),
                self.max_depth == max_depth,
                pass_two(first, chosen.take(j as int), metrics@) == (UpdatePass {
                    nodes: self.nodes@,
                    candidates: first.candidates,
                    spawns: to_spawn@,
                    despawns: to_despawn@,
                }),
                forall|n: int|
                    0 <= n < sorted.len() ==> {
                        let c = #[trigger] sorted@[n];
                        &&& nodes0.contains_key(node_key(c.0))
                        &&& nodes0[node_key(c.0)].address == c.0
                        &&& c.0.depth < SUBDIVISION_DEPTH_LIMIT
                    },
            decreases limit - j,
        {
            let c = sorted[j];
            proof {
                assert(chosen.take(j + 1).drop_last() =~= chosen.take(j as int));
                assert(chosen.take(j + 1).last() == c);
            }
            self.nodes.entries_match();
            let k = address_key(&c.0);
            if let Some(node) = self.nodes.get_by_key(k) {
                let a = node.address;
                proof {
                    law_node_key_injective(a, c.0);
                    crate::plugins::quadtree::law_parent_of_child(a, 0);
                    crate::plugins::quadtree::law_parent_of_child(a, 1);
                    crate::plugins::quadtree::law_parent_of_child(a, 2);
                    crate::plugins::quadtree::law_parent_of_child(a, 3);
                    assert(metrics@.contains_key(node_key(nodes0[k].address.spec_child(0))));
                    assert(metrics@.contains_key(node_key(nodes0[k].address.spec_child(1))));
                    assert(metrics@.contains_key(node_key(nodes0[k].address.spec_child(2))));
                    assert(metrics@.contains_key(node_key(nodes0[k].address.spec_child(3))));
                }
                let ghost spawns_before = to_spawn@;
                self.nodes.insert(QuadtreeNode { state: ChunkState::Subdivided, ..node });
                let children = a.children();
                proof {
                    assert(children@[0] == a.spec_child(0));
                    assert(children@[1] == a.spec_child(1));
                    assert(children@[2] == a.spec_child(2));
                    assert(children@[3] == a.spec_child(3));
                }
                self.spawn_child(&children[0], metrics, &mut to_spawn);
                self.spawn_child(&children[1], metrics, &mut to_spawn);
                self.spawn_child(&children[2], metrics, &mut to_spawn);
                self.spawn_child(&children[3], metrics, &mut to_spawn);
                proof {
                    assert(to_spawn@ =~= spawns_before + children_spawns(a, metrics@));
                }
            }
            j = j + 1;
        }
        proof {
            assert(chosen.take(limit as int) =~= chosen);
        }

        // Sort spawns by distance (closest chunks first for priority loading).
        let spawn_sorted = sort_entries(&to_spawn);
        let mut spawned: Vec<QuadtreeAddress> = Vec::new();
        let mut n: usize = 0;
        while n < spawn_sorted.len()
            invariant
                n <= spawn_sorted.len(),
                spawned@ == spawn_sorted@.take(n as int).map_values(|e: (QuadtreeAddress, u32)| e.0),
            decreases spawn_sorted.len() - n,
        {
            spawned.push(spawn_sorted[n].0);
            proof {
                assert(spawn_sorted@.take(n + 1).map_values(|e: (QuadtreeAddress, u32)| e.0) =~= spawn_sorted@.take(n as int).map_values(|e: (QuadtreeAddress, u32)| e.0).push(spawn_sorted@[n as int].0));
            }
            n = n + 1;
        }
        proof {
            assert(spawn_sorted@.take(spawn_sorted.len() as int) =~= spawn_sorted@);
            assert(spec_update(nodes0, order@, metrics@, max_depth, max_subdivisions) == (self.nodes@, spawned@, to_despawn@));
            if tree_shaped(nodes0) {
                law_update_keeps_tree_shape(nodes0, order@, metrics@, max_depth, max_subdivisions);
                law_update_keeps_levels(nodes0, order@, metrics@, max_depth, max_subdivisions);
                if valid_tree(nodes0, max_depth) {
                    law_update_keeps_valid_tree(nodes0, order@, metrics@, max_depth, max_subdivisions);
                }
                law_despawned_chunks_leave(nodes0, order@, metrics@, max_depth, max_subdivisions);
                if hysteresis(metrics@, max_depth) {
                    law_update_settles(nodes0, order@, metrics@, max_depth, max_subdivisions);
                }
            }
        }
        self.nodes.entries_match();
        (spawned, to_despawn)
    }
}

/// Entities of the chunks that have one, keyed by address.
pub struct ChunkEntities {
    map: HashMap<u128, u64>,
}

impl View for ChunkEntities {
    type V = Map<u128, u64>;

    closed spec fn view(&self) -> Map<u128, u64> {
        self.map@
    }
}

impl ChunkEntities {
    /// No entities.
    pub fn new() -> (r: Self)
        ensures
            r@ == Map::<u128, u64>::empty(),
    {
        ChunkEntities { map: HashMap::new() }
    }

    /// Record the entity of the chunk at `a`.
    pub fn insert(&mut self, a: &QuadtreeAddress, entity: u64)
        ensures
            final(self)@ == old(self)@.insert(node_key(*a), entity),
    {
        let k = address_key(a);
        self.map.insert(k, entity);
    }

    /// Forget the entity of the chunk at `a`, returning it if there was one.
    pub fn remove(&mut self, a: &QuadtreeAddress) -> (r: Option<u64>)
        ensures
            final(self)@ == old(self)@.remove(node_key(*a)),
            r == if old(self)@.contains_key(node_key(*a)) {
                Some(old(self)@[node_key(*a)])
            } else {
                None
            },
    {
        let k = address_key(a);
        self.map.remove(&k)
    }

    /// Whether the chunk at `a` has an entity.
    pub fn contains_key(&self, a: &QuadtreeAddress) -> (r: bool)
        ensures
            r == self@.contains_key(node_key(*a)),
    {
        let k = address_key(a);
        self.map.contains_key(&k)
    }

    /// Number of chunks with an entity.
    pub fn len(&self) -> (r: usize)
        ensures
            r == self@.len(),
    {
        self.map.len()
    }
}

/// The chunks to spawn this frame, in order: of the first `max_per_frame`
/// entries of `to_spawn`, those without an entity yet.
pub open spec fn spec_chunks_to_spawn(
    to_spawn: Seq<QuadtreeAddress>,
    existing: Map<u128, u64>,
    max_per_frame: usize,
) -> Seq<QuadtreeAddress> {
    to_spawn.take(if max_per_frame < to_spawn.len() {
        max_per_frame as int
    } else {
        to_spawn.len() as int
    }).filter(|a: QuadtreeAddress| !existing.contains_key(node_key(a)))
}

/// Limit the chunks spawned per frame: walk the spawn list in priority order,
/// stop after `max_per_frame` entries, and skip chunks that already have an entity.
pub fn chunks_to_spawn(to_spawn: &Vec<QuadtreeAddress>, existing: &ChunkEntities, max_per_frame: usize) -> (r: Vec<
    QuadtreeAddress,
>)
    ensures
        r@ == spec_chunks_to_spawn(to_spawn@, existing@, max_per_frame),
        r@.len() <= max_per_frame,
        forall|i: int| 0 <= i < r@.len() ==> !existing@.contains_key(node_key(#[trigger] r@[i])),
        forall|i: int| 0 <= i < r@.len() ==> among_first(to_spawn@, max_per_frame as int, #[trigger] r@[i]),
        forall|j: int|
            0 <= j < max_per_frame && j < to_spawn@.len() && !existing@.contains_key(node_key(#[trigger] to_spawn@[j]))
                ==> r@.contains(to_spawn@[j]),
{
    let ghost pred = |a: QuadtreeAddress| !existing@.contains_key(node_key(a));
    let limit = if max_per_frame < to_spawn.len() {
        max_per_frame
    } else {
        to_spawn.len()
    };
    let mut r: Vec<QuadtreeAddress> = Vec::new();
    let mut i: usize = 0;
    while i < limit
        invariant
            i <= limit <= to_spawn.len(),
            pred == (|a: QuadtreeAddress| !existing@.contains_key(node_key(a))),
            r@ == to_spawn@.take(i as int).filter(pred),
        decreases limit - i,
    {
        let address = to_spawn[i];
        proof {
            reveal(Seq::filter);
            assert(to_spawn@.take(i + 1).drop_last() =~= to_spawn@.take(i as int));
            assert(to_spawn@.take(i + 1).last() == address);
        }
        if !existing.contains_key(&address) {
            r.push(address);
        }
        i = i + 1;
    }
    proof {
        assert(to_spawn@.take(limit as int) == to_spawn@.take(if max_per_frame < to_spawn.len() {
            max_per_frame as int
        } else {
            to_spawn.len() as int
        }));
    }
    proof {
        law_chunks_to_spawn(to_spawn@, existing@, max_per_frame);
    }
    r
}

/// `a` is one of the first `n` entries of `s`.
pub open spec fn among_first(s: Seq<QuadtreeAddress>, n: int, a: QuadtreeAddress) -> bool {
    exists|j: int| 0 <= j < n && j < s.len() && s[j] == a
}

/// Law: the chunks to spawn this frame are at most `max_per_frame`, none of
/// them already has an entity, each is among the first `max_per_frame`
/// entries of the spawn list, and every such entry without an entity is
/// among them.
pub proof fn law_chunks_to_spawn(to_spawn: Seq<QuadtreeAddress>, existing: Map<u128, u64>, max_per_frame: usize)
    ensures
        spec_chunks_to_spawn(to_spawn, existing, max_per_frame).len() <= max_per_frame,
        forall|i: int|
            0 <= i < spec_chunks_to_spawn(to_spawn, existing, max_per_frame).len() ==> !existing.contains_key(
                node_key(#[trigger] spec_chunks_to_spawn(to_spawn, existing, max_per_frame)[i]),
            ),
        forall|i: int|
            0 <= i < spec_chunks_to_spawn(to_spawn, existing, max_per_frame).len() ==> among_first(
                to_spawn,
                max_per_frame as int,
                #[trigger] spec_chunks_to_spawn(to_spawn, existing, max_per_frame)[i],
            ),
        forall|j: int|
            0 <= j < max_per_frame && j < to_spawn.len() && !existing.contains_key(node_key(#[trigger] to_spawn[j]))
                ==> spec_chunks_to_spawn(to_spawn, existing, max_per_frame).contains(to_spawn[j]),
{
    broadcast use vstd::seq_lib::group_filter_ensures;
    let pred = |a: QuadtreeAddress| !existing.contains_key(node_key(a));
    let n = if max_per_frame < to_spawn.len() {
        max_per_frame as int
    } else {
        to_spawn.len() as int
    };
    let head = to_spawn.take(n);
    let r = head.filter(pred);
    assert(r == spec_chunks_to_spawn(to_spawn, existing, max_per_frame));
    assert forall|i: int| 0 <= i < r.len() implies !existing.contains_key(node_key(#[trigger] r[i])) by {
        assert(pred(r[i]));
    }
    let out = spec_chunks_to_spawn(to_spawn, existing, max_per_frame);
    assert forall|i: int| 0 <= i < out.len() implies among_first(to_spawn, max_per_frame as int, #[trigger] out[i]) by {
        assert(r.contains(r[i]));
        head.lemma_filter_contains_rev(pred, r[i]);
        let j = choose|j: int| 0 <= j < head.len() && head[j] == r[i];
        assert(to_spawn[j] == head[j]);
        assert(to_spawn[j] == out[i]);
    }
    assert forall|j: int|
        0 <= j < max_per_frame && j < to_spawn.len() && !existing.contains_key(node_key(#[trigger] to_spawn[j])) implies r.contains(
        to_spawn[j],
    ) by {
        assert(head[j] == to_spawn[j]);
        assert(pred(head[j]));
    }
}

/// The keys of the four children of an address differ from each other and from its own key.
proof fn lemma_children_keys_distinct(a: QuadtreeAddress)
    requires
        a.wf(),
        a.depth < 31,
    ensures
        forall|q1: u8, q2: u8| q1 < 4 && q2 < 4 && q1 != q2 ==> child_key(a, q1) != child_key(a, q2),
        forall|q: u8| q < 4 ==> child_key(a, q) != node_key(a),
{
    assert forall|q1: u8, q2: u8| q1 < 4 && q2 < 4 && q1 != q2 implies child_key(a, q1) != child_key(a, q2) by {
        crate::plugins::quadtree::law_children_distinct(a, q1, q2);
        if child_key(a, q1) == child_key(a, q2) {
            law_node_key_injective(a.spec_child(q1), a.spec_child(q2));
        }
    }
    assert forall|q: u8| q < 4 implies child_key(a, q) != node_key(a) by {
        if child_key(a, q) == node_key(a) {
            law_node_key_injective(a.spec_child(q), a);
        }
    }
}

/// Sorting keeps the length and only reorders entries.
pub proof fn lemma_sort_members(s: Seq<(QuadtreeAddress, u32)>)
    ensures
        sort_by_distance(s).len() == s.len(),
        forall|i: int| 0 <= i < sort_by_distance(s).len() ==> s.contains(#[trigger] sort_by_distance(s)[i]),
    decreases s.len(),
{
    if s.len() > 0 {
        let rest = s.drop_last();
        lemma_sort_members(rest);
        let sorted = sort_by_distance(rest);
        lemma_insertion_point_bounds(sorted, s.last().1);
        let p = insertion_point(sorted, s.last().1);
        let out = sorted.insert(p, s.last());
        assert forall|i: int| 0 <= i < out.len() implies s.contains(#[trigger] out[i]) by {
            if i < p {
                assert(rest.contains(sorted[i]));
                let w = choose|w: int| 0 <= w < rest.len() && rest[w] == sorted[i];
                assert(s[w] == sorted[i]);
            } else if i == p {
                assert(s[s.len() - 1] == s.last());
            } else {
                assert(rest.contains(sorted[i - 1]));
                let w = choose|w: int| 0 <= w < rest.len() && rest[w] == sorted[i - 1];
                assert(s[w] == sorted[i - 1]);
            }
        }
    }
}

pub(crate) proof fn lemma_insertion_point_bounds(s: Seq<(QuadtreeAddress, u32)>, d: u32)
    ensures
        0 <= insertion_point(s, d) <= s.len(),
    decreases s.len(),
{
    if s.len() > 0 && s[0].1 <= d {
        lemma_insertion_point_bounds(s.drop_first(), d);
    }
}

/// Entries are in non-decreasing order of distance key.
pub open spec fn sorted_by_distance(s: Seq<(QuadtreeAddress, u32)>) -> bool {
    forall|i: int, j: int| 0 <= i < j < s.len() ==> s[i].1 <= s[j].1
}

/// Every entry carries the distance key of its own chunk.
pub open spec fn keyed_by_metrics(s: Seq<(QuadtreeAddress, u32)>, mt: Map<u128, NodeMetrics>) -> bool {
    forall|i: int| 0 <= i < s.len() ==> (#[trigger] s[i]).1 == metric(mt, s[i].0).distance_key
}

proof fn lemma_insertion_point_splits(s: Seq<(QuadtreeAddress, u32)>, d: u32)
    requires
        sorted_by_distance(s),
    ensures
        0 <= insertion_point(s, d) <= s.len(),
        forall|i: int| 0 <= i < insertion_point(s, d) ==> s[i].1 <= d,
        forall|i: int| insertion_point(s, d) <= i < s.len() ==> s[i].1 > d,
    decreases s.len(),
{
    if s.len() > 0 && s[0].1 <= d {
        let t = s.drop_first();
        lemma_insertion_point_splits(t, d);
        assert forall|i: int| 0 <= i < insertion_point(s, d) implies s[i].1 <= d by {
            if i > 0 {
                assert(s[i] == t[i - 1]);
            }
        }
        assert forall|i: int| insertion_point(s, d) <= i < s.len() implies s[i].1 > d by {
            assert(s[i] == t[i - 1]);
        }
    } else if s.len() > 0 {
        assert forall|i: int| 0 <= i < s.len() implies s[i].1 > d by {
            if i > 0 {
                assert(s[0].1 <= s[i].1);
            }
        }
    }
}

/// Law: sorting by distance yields entries in non-decreasing order of distance key.
pub proof fn law_sort_is_sorted(s: Seq<(QuadtreeAddress, u32)>)
    ensures
        sorted_by_distance(sort_by_distance(s)),
    decreases s.len(),
{
    if s.len() > 0 {
        let rest = s.drop_last();
        law_sort_is_sorted(rest);
        let sorted = sort_by_distance(rest);
        let e = s.last();
        lemma_insertion_point_splits(sorted, e.1);
        let p = insertion_point(sorted, e.1);
        let out = sorted.insert(p, e);
        assert forall|i: int, j: int| 0 <= i < j < out.len() implies out[i].1 <= out[j].1 by {
            if j < p {
            } else if j == p {
            } else if i < p {
                assert(out[j] == sorted[j - 1]);
            } else if i == p {
                assert(out[j] == sorted[j - 1]);
            } else {
                assert(out[i] == sorted[i - 1]);
                assert(out[j] == sorted[j - 1]);
            }
        }
    }
}

proof fn lemma_sort_keeps_keys(s: Seq<(QuadtreeAddress, u32)>, mt: Map<u128, NodeMetrics>)
    requires
        keyed_by_metrics(s, mt),
    ensures
        keyed_by_metrics(sort_by_distance(s), mt),
{
    lemma_sort_members(s);
    let out = sort_by_distance(s);
    assert forall|i: int| 0 <= i < out.len() implies (#[trigger] out[i]).1 == metric(mt, out[i].0).distance_key by {
        assert(s.contains(out[i]));
    }
}

proof fn lemma_pass_one_keys(nodes: Map<u128, QuadtreeNode>, order: Seq<u128>, mt: Map<u128, NodeMetrics>, max_depth: u8)
    ensures
        keyed_by_metrics(pass_one(nodes, order, mt, max_depth).spawns, mt),
        keyed_by_metrics(pass_one(nodes, order, mt, max_depth).candidates, mt),
    decreases order.len(),
{
    if order.len() > 0 {
        lemma_pass_one_keys(nodes, order.drop_last(), mt, max_depth);
    }
}

proof fn lemma_pass_two_keys(p: UpdatePass, chosen: Seq<(QuadtreeAddress, u32)>, mt: Map<u128, NodeMetrics>)
    requires
        keyed_by_metrics(p.spawns, mt),
    ensures
        keyed_by_metrics(pass_two(p, chosen, mt).spawns, mt),
    decreases chosen.len(),
{
    if chosen.len() > 0 {
        lemma_pass_two_keys(p, chosen.drop_last(), mt);
        let q = pass_two(p, chosen.drop_last(), mt);
        let k = node_key(chosen.last().0);
        if q.nodes.contains_key(k) {
            let a = q.nodes[k].address;
            let out = q.spawns + children_spawns(a, mt);
            assert forall|i: int| 0 <= i < out.len() implies (#[trigger] out[i]).1 == metric(mt, out[i].0).distance_key by {
                if i >= q.spawns.len() {
                    let j = i - q.spawns.len();
                    assert(out[i] == children_spawns(a, mt)[j]);
                }
            }
        }
    }
}

/// Law: whatever the order in which the nodes are walked, the chunks that an
/// update asks to spawn come closest first, by the distance keys of their metrics.
pub proof fn law_spawns_closest_first(
    nodes: Map<u128, QuadtreeNode>,
    order: Seq<u128>,
    mt: Map<u128, NodeMetrics>,
    max_depth: u8,
    budget: usize,
)
    ensures
        ({
            let spawned = spec_update(nodes, order, mt, max_depth, budget).1;
            forall|i: int, j: int|
                0 <= i < j < spawned.len() ==> metric(mt, spawned[i]).distance_key <= metric(mt, spawned[j]).distance_key
        }),
{
    let first = pass_one(nodes, order, mt, max_depth);
    let sorted = sort_by_distance(first.candidates);
    let chosen = sorted.take(subdivision_limit(budget, sorted.len()) as int);
    let second = pass_two(first, chosen, mt);
    lemma_pass_one_keys(nodes, order, mt, max_depth);
    lemma_pass_two_keys(first, chosen, mt);
    lemma_sort_keeps_keys(second.spawns, mt);
    law_sort_is_sorted(second.spawns);
    let out = sort_by_distance(second.spawns);
    let spawned = out.map_values(|e: (QuadtreeAddress, u32)| e.0);
    assert forall|i: int, j: int| 0 <= i < j < spawned.len() implies metric(mt, spawned[i]).distance_key <= metric(mt, spawned[j]).distance_key by {
        assert(spawned[i] == out[i].0);
        assert(spawned[j] == out[j].0);
        assert(out[i].1 == metric(mt, out[i].0).distance_key);
        assert(out[j].1 == metric(mt, out[j].0).distance_key);
    }
}

/// The chunks that want to split in an update, closest first.
pub open spec fn split_candidates(
    nodes: Map<u128, QuadtreeNode>,
    order: Seq<u128>,
    mt: Map<u128, NodeMetrics>,
    max_depth: u8,
) -> Seq<(QuadtreeAddress, u32)> {
    sort_by_distance(pass_one(nodes, order, mt, max_depth).candidates)
}

/// Law: the subdivision budget is spent on the closest chunks. Of the chunks
/// that want to split, those that an update splits (the first
/// `subdivision_limit` of them) are each no farther from the observer than
/// any that it passes over.
pub proof fn law_budget_spent_on_closest(
    nodes: Map<u128, QuadtreeNode>,
    order: Seq<u128>,
    mt: Map<u128, NodeMetrics>,
    max_depth: u8,
    budget: usize,
)
    ensures
        ({
            let s = split_candidates(nodes, order, mt, max_depth);
            let n = subdivision_limit(budget, s.len()) as int;
            forall|i: int, j: int|
                0 <= i < n <= j < s.len() ==> metric(mt, s[i].0).distance_key <= metric(mt, s[j].0).distance_key
        }),
{
    let first = pass_one(nodes, order, mt, max_depth);
    let s = split_candidates(nodes, order, mt, max_depth);
    lemma_pass_one_keys(nodes, order, mt, max_depth);
    lemma_sort_keeps_keys(first.candidates, mt);
    law_sort_is_sorted(first.candidates);
    assert forall|i: int, j: int|
        0 <= i < subdivision_limit(budget, s.len()) as int <= j < s.len() implies metric(mt, s[i].0).distance_key
        <= metric(mt, s[j].0).distance_key by {
        assert(s[i].1 == metric(mt, s[i].0).distance_key);
        assert(s[j].1 == metric(mt, s[j].0).distance_key);
    }
}

/// No subdivided node wants to merge.
pub open spec fn no_merges_wanted(nodes: Map<u128, QuadtreeNode>, mt: Map<u128, NodeMetrics>) -> bool {
    forall|k: u128|
        #[trigger] nodes.contains_key(k) && nodes[k].state == ChunkState::Subdivided ==> !wants_merge(
            nodes[k].address,
            mt,
        )
}

proof fn lemma_pass_one_no_merges(nodes: Map<u128, QuadtreeNode>, order: Seq<u128>, mt: Map<u128, NodeMetrics>, max_depth: u8)
    requires
        no_merges_wanted(nodes, mt),
    ensures
        pass_one(nodes, order, mt, max_depth).spawns.len() == 0,
        pass_one(nodes, order, mt, max_depth).nodes == nodes,
    decreases order.len(),
{
    if order.len() > 0 {
        lemma_pass_one_no_merges(nodes, order.drop_last(), mt, max_depth);
    }
}

proof fn lemma_pass_two_growth(p: UpdatePass, chosen: Seq<(QuadtreeAddress, u32)>, mt: Map<u128, NodeMetrics>)
    ensures
        pass_two(p, chosen, mt).spawns.len() <= p.spawns.len() + 4 * chosen.len(),
    decreases chosen.len(),
{
    if chosen.len() > 0 {
        lemma_pass_two_growth(p, chosen.drop_last(), mt);
    }
}

/// Law: when no subdivided chunk wants to merge (as in a freshly
/// initialized tree, which has no subdivided chunk), an update with a budget
/// of `n > 0` subdivisions spawns at most `4 n` chunks: four children for
/// each split.
pub proof fn law_budget_bounds_spawns(
    nodes: Map<u128, QuadtreeNode>,
    order: Seq<u128>,
    mt: Map<u128, NodeMetrics>,
    max_depth: u8,
    budget: usize,
)
    requires
        budget > 0,
        no_merges_wanted(nodes, mt),
    ensures
        spec_update(nodes, order, mt, max_depth, budget).1.len() <= 4 * budget,
{
    let first = pass_one(nodes, order, mt, max_depth);
    let sorted = sort_by_distance(first.candidates);
    let chosen = sorted.take(subdivision_limit(budget, sorted.len()) as int);
    lemma_pass_one_no_merges(nodes, order, mt, max_depth);
    lemma_sort_members(first.candidates);
    lemma_pass_two_growth(first, chosen, mt);
    let second = pass_two(first, chosen, mt);
    lemma_sort_members(second.spawns);
}

/// The keys of the nodes that are not subdivided and want to split.
pub open spec fn wanting_split(nodes: Map<u128, QuadtreeNode>, mt: Map<u128, NodeMetrics>, max_depth: u8) -> Set<u128> {
    Set::new(
        |k: u128|
            nodes.contains_key(k) && nodes[k].state != ChunkState::Subdivided && wants_subdivision(
                nodes[k].address,
                mt,
                max_depth,
            ),
    )
}

/// Without merges, the first pass picks one candidate for each walked key
/// of a node that wants to split, and each candidate is a node of the tree.
proof fn lemma_pass_one_candidate_count(nodes: Map<u128, QuadtreeNode>, order: Seq<u128>, mt: Map<u128, NodeMetrics>, max_depth: u8)
    requires
        keys_match(nodes),
        no_merges_wanted(nodes, mt),
        order.no_duplicates(),
    ensures
        pass_one(nodes, order, mt, max_depth).candidates.len() == order.to_set().intersect(
            wanting_split(nodes, mt, max_depth),
        ).len(),
        forall|i: int|
            0 <= i < pass_one(nodes, order, mt, max_depth).candidates.len() ==> nodes.contains_key(
                node_key(#[trigger] pass_one(nodes, order, mt, max_depth).candidates[i].0),
            ),
    decreases order.len(),
{
    let w = wanting_split(nodes, mt, max_depth);
    if order.len() == 0 {
        assert(order.to_set().intersect(w) =~= Set::<u128>::empty());
    } else {
        let prefix = order.drop_last();
        let k = order.last();
        assert(prefix.no_duplicates());
        lemma_pass_one_candidate_count(nodes, prefix, mt, max_depth);
        lemma_pass_one_no_merges(nodes, prefix, mt, max_depth);
        let p = pass_one(nodes, prefix, mt, max_depth);
        let r = pass_one(nodes, order, mt, max_depth);
        assert(order =~= prefix.push(k));
        prefix.lemma_push_to_set_commute(k);
        vstd::seq_lib::seq_to_set_is_finite(prefix);
        assert(!prefix.to_set().contains(k)) by {
            if prefix.to_set().contains(k) {
                let j = choose|j: int| 0 <= j < prefix.len() && prefix[j] == k;
                assert(order[j] == order[order.len() - 1]);
            }
        }
        let before = prefix.to_set().intersect(w);
        assert(before.finite()) by {
            assert(before.subset_of(prefix.to_set()));
            vstd::set_lib::lemma_set_subset_finite(prefix.to_set(), before);
        }
        if w.contains(k) {
            assert(order.to_set().intersect(w) =~= before.insert(k));
            assert(!before.contains(k));
        } else {
            assert(order.to_set().intersect(w) =~= before);
        }
        assert forall|i: int| 0 <= i < r.candidates.len() implies nodes.contains_key(
            node_key(#[trigger] r.candidates[i].0),
        ) by {
            if i < p.candidates.len() {
                assert(r.candidates[i] == p.candidates[i]);
            }
        }
    }
}

/// A second pass whose chosen chunks are all nodes of the tree spawns four
/// children for each, and keeps every node.
proof fn lemma_pass_two_exact(p: UpdatePass, chosen: Seq<(QuadtreeAddress, u32)>, mt: Map<u128, NodeMetrics>)
    requires
        forall|i: int| 0 <= i < chosen.len() ==> p.nodes.contains_key(node_key(#[trigger] chosen[i].0)),
    ensures
        pass_two(p, chosen, mt).spawns.len() == p.spawns.len() + 4 * chosen.len(),
        forall|k: u128| p.nodes.contains_key(k) ==> #[trigger] pass_two(p, chosen, mt).nodes.contains_key(k),
    decreases chosen.len(),
{
    if chosen.len() > 0 {
        let prefix = chosen.drop_last();
        assert forall|i: int| 0 <= i < prefix.len() implies p.nodes.contains_key(node_key(#[trigger] prefix[i].0)) by {
            assert(prefix[i] == chosen[i]);
        }
        lemma_pass_two_exact(p, prefix, mt);
        assert(p.nodes.contains_key(node_key(chosen[chosen.len() - 1].0)));
    }
}

/// Law: when no subdivided chunk wants to merge, an update that walks every
/// node once spawns exactly four chunks for each split, and splits as many
/// of the chunks that want to as its budget allows (all of them for a
/// budget of 0), whatever the order of its walk.
pub proof fn law_spawn_count_without_merges(
    nodes: Map<u128, QuadtreeNode>,
    order: Seq<u128>,
    mt: Map<u128, NodeMetrics>,
    max_depth: u8,
    budget: usize,
)
    requires
        keys_match(nodes),
        order.no_duplicates(),
        order.to_set() == nodes.dom(),
        no_merges_wanted(nodes, mt),
    ensures
        spec_update(nodes, order, mt, max_depth, budget).1.len() == 4 * subdivision_limit(
            budget,
            wanting_split(nodes, mt, max_depth).len(),
        ),
{
    let w = wanting_split(nodes, mt, max_depth);
    lemma_pass_one_candidate_count(nodes, order, mt, max_depth);
    lemma_pass_one_no_merges(nodes, order, mt, max_depth);
    assert(order.to_set().intersect(w) =~= w);
    let first = pass_one(nodes, order, mt, max_depth);
    let sorted = sort_by_distance(first.candidates);
    let chosen = sorted.take(subdivision_limit(budget, sorted.len()) as int);
    lemma_sort_members(first.candidates);
    assert forall|i: int| 0 <= i < chosen.len() implies first.nodes.contains_key(node_key(#[trigger] chosen[i].0)) by {
        assert(chosen[i] == sorted[i]);
        assert(first.candidates.contains(sorted[i]));
        let j = choose|j: int| 0 <= j < first.candidates.len() && first.candidates[j] == sorted[i];
        assert(nodes.contains_key(node_key(first.candidates[j].0)));
    }
    lemma_pass_two_exact(first, chosen, mt);
    lemma_sort_members(pass_two(first, chosen, mt).spawns);
}

/// Law: when no subdivided chunk wants to merge, a larger subdivision budget
/// never spawns fewer chunks, even when the two updates walk the nodes in
/// different orders: budget `k2` spawns at least as many as `0 < k1 <= k2`,
/// and an unlimited budget (0) at least as many as any.
pub proof fn law_spawns_grow_with_budget_any_order(
    nodes: Map<u128, QuadtreeNode>,
    order1: Seq<u128>,
    order2: Seq<u128>,
    mt: Map<u128, NodeMetrics>,
    max_depth: u8,
    k1: usize,
    k2: usize,
)
    requires
        keys_match(nodes),
        order1.no_duplicates(),
        order1.to_set() == nodes.dom(),
        order2.no_duplicates(),
        order2.to_set() == nodes.dom(),
        no_merges_wanted(nodes, mt),
        0 < k1 <= k2 || k2 == 0,
    ensures
        spec_update(nodes, order1, mt, max_depth, k1).1.len() <= spec_update(nodes, order2, mt, max_depth, k2).1.len(),
{
    law_spawn_count_without_merges(nodes, order1, mt, max_depth, k1);
    law_spawn_count_without_merges(nodes, order2, mt, max_depth, k2);
}

proof fn lemma_pass_two_keeps_despawns(p: UpdatePass, chosen: Seq<(QuadtreeAddress, u32)>, mt: Map<u128, NodeMetrics>)
    ensures
        pass_two(p, chosen, mt).despawns == p.despawns,
    decreases chosen.len(),
{
    if chosen.len() > 0 {
        lemma_pass_two_keeps_despawns(p, chosen.drop_last(), mt);
    }
}

/// Law: merges are not budgeted. The chunks an update despawns are the same
/// whatever its subdivision budget.
pub proof fn law_merges_not_budgeted(
    nodes: Map<u128, QuadtreeNode>,
    order: Seq<u128>,
    mt: Map<u128, NodeMetrics>,
    max_depth: u8,
    budget1: usize,
    budget2: usize,
)
    ensures
        spec_update(nodes, order, mt, max_depth, budget1).2 == spec_update(nodes, order, mt, max_depth, budget2).2,
{
    let first = pass_one(nodes, order, mt, max_depth);
    let sorted = sort_by_distance(first.candidates);
    lemma_pass_two_keeps_despawns(first, sorted.take(subdivision_limit(budget1, sorted.len()) as int), mt);
    lemma_pass_two_keeps_despawns(first, sorted.take(subdivision_limit(budget2, sorted.len()) as int), mt);
}

/// The keys in `order` of subdivided nodes.
pub open spec fn subdivided_in(nodes: Map<u128, QuadtreeNode>, order: Seq<u128>) -> Seq<u128> {
    order.filter(|k: u128| nodes.contains_key(k) && nodes[k].state == ChunkState::Subdivided)
}

proof fn lemma_pass_one_merge_count(nodes: Map<u128, QuadtreeNode>, order: Seq<u128>, mt: Map<u128, NodeMetrics>, max_depth: u8)
    ensures
        pass_one(nodes, order, mt, max_depth).spawns.len() <= subdivided_in(nodes, order).len(),
        forall|k: u128|
            #[trigger] pass_one(nodes, order, mt, max_depth).nodes.contains_key(k) && pass_one(
                nodes,
                order,
                mt,
                max_depth,
            ).nodes[k].state == ChunkState::Subdivided ==> nodes.contains_key(k) && nodes[k].state
                == ChunkState::Subdivided,
    decreases order.len(),
{
    reveal(Seq::filter);
    if order.len() > 0 {
        let prefix = order.drop_last();
        lemma_pass_one_merge_count(nodes, prefix, mt, max_depth);
        let p = pass_one(nodes, prefix, mt, max_depth);
        let k = order.last();
        assert(subdivided_in(nodes, order) == if nodes.contains_key(k) && nodes[k].state == ChunkState::Subdivided {
            subdivided_in(nodes, prefix).push(k)
        } else {
            subdivided_in(nodes, prefix)
        });
        if p.nodes.contains_key(k) && p.nodes[k].state == ChunkState::Subdivided {
            let a = p.nodes[k].address;
            if wants_merge(a, mt) && all_children_are_leaves(p.nodes, a) {
                let r = pass_one(nodes, order, mt, max_depth);
                assert forall|x: u128| #[trigger] r.nodes.contains_key(x) && r.nodes[x].state
                    == ChunkState::Subdivided implies nodes.contains_key(x) && nodes[x].state
                    == ChunkState::Subdivided by {
                    assert(x != k);
                    assert(p.nodes.contains_key(x) && r.nodes[x] == p.nodes[x]);
                }
            }
        }
    }
}

/// Law: an update with a budget of `n > 0` subdivisions spawns at most
/// `4 n` chunks plus one for each merge, and only subdivided chunks merge:
/// at most `4 n` plus the number of subdivided chunks walked.
pub proof fn law_spawns_bounded(
    nodes: Map<u128, QuadtreeNode>,
    order: Seq<u128>,
    mt: Map<u128, NodeMetrics>,
    max_depth: u8,
    budget: usize,
)
    requires
        budget > 0,
    ensures
        spec_update(nodes, order, mt, max_depth, budget).1.len() <= 4 * budget + subdivided_in(nodes, order).len(),
{
    let first = pass_one(nodes, order, mt, max_depth);
    let sorted = sort_by_distance(first.candidates);
    let chosen = sorted.take(subdivision_limit(budget, sorted.len()) as int);
    lemma_pass_one_merge_count(nodes, order, mt, max_depth);
    lemma_sort_members(first.candidates);
    lemma_pass_two_growth(first, chosen, mt);
    let second = pass_two(first, chosen, mt);
    lemma_sort_members(second.spawns);
}

proof fn lemma_pass_two_prefix_spawns(p: UpdatePass, s: Seq<(QuadtreeAddress, u32)>, l1: int, l2: int, mt: Map<u128, NodeMetrics>)
    requires
        0 <= l1 <= l2 <= s.len(),
    ensures
        pass_two(p, s.take(l1), mt).spawns.len() <= pass_two(p, s.take(l2), mt).spawns.len(),
    decreases l2 - l1,
{
    if l1 < l2 {
        lemma_pass_two_prefix_spawns(p, s, l1, l2 - 1, mt);
        assert(s.take(l2).drop_last() =~= s.take(l2 - 1));
    }
}

/// Law: a larger subdivision budget never spawns fewer chunks. Of two
/// updates of the same tree with the same metrics and walk order, the one
/// with budget `k2` spawns at least as many chunks as the one with budget
/// `0 < k1 <= k2`, and an unlimited budget (0) spawns at least as many as any.
pub proof fn law_spawns_grow_with_budget(
    nodes: Map<u128, QuadtreeNode>,
    order: Seq<u128>,
    mt: Map<u128, NodeMetrics>,
    max_depth: u8,
    k1: usize,
    k2: usize,
)
    requires
        0 < k1 <= k2 || k2 == 0,
    ensures
        spec_update(nodes, order, mt, max_depth, k1).1.len() <= spec_update(nodes, order, mt, max_depth, k2).1.len(),
{
    let first = pass_one(nodes, order, mt, max_depth);
    let sorted = sort_by_distance(first.candidates);
    let l1 = subdivision_limit(k1, sorted.len()) as int;
    let l2 = subdivision_limit(k2, sorted.len()) as int;
    lemma_pass_two_prefix_spawns(first, sorted, l1, l2, mt);
    lemma_sort_members(pass_two(first, sorted.take(l1), mt).spawns);
    lemma_sort_members(pass_two(first, sorted.take(l2), mt).spawns);
}

/// Law: initializing an empty tree gives exactly the six face roots, as
/// leaves without meshes, each under the key of its address; this is a
/// quadtree, and no node in it lies below depth 0.
pub proof fn law_initialized_tree()
    ensures
        with_roots(Map::empty()).len() == 6,
        tree_shaped(with_roots(Map::empty())),
        keys_match(with_roots(Map::empty())),
        forall|k: u128| #[trigger] with_roots(Map::empty()).contains_key(k) ==> with_roots(Map::empty())[k].address.depth == 0
            && with_roots(Map::empty())[k].address.face < 6,
        forall|f: u8|
            f < 6 ==> #[trigger] with_roots(Map::empty()).contains_key(node_key(QuadtreeAddress::spec_root(f)))
                && with_roots(Map::empty())[node_key(QuadtreeAddress::spec_root(f))] == fresh_leaf(
                QuadtreeAddress::spec_root(f),
            ),
{
    let m0 = Map::<u128, QuadtreeNode>::empty();
    assert forall|f: u8| f < 6 implies #[trigger] with_roots(m0).contains_key(node_key(QuadtreeAddress::spec_root(f)))
        && with_roots(m0)[node_key(QuadtreeAddress::spec_root(f))] == fresh_leaf(QuadtreeAddress::spec_root(f)) by {
        reveal_with_fuel(roots_upto, 7);
    }
    reveal_with_fuel(roots_upto, 7);
    let m6 = with_roots(m0);
    assert forall|k: u128| #[trigger] m6.contains_key(k) implies m6[k].address.depth == 0 && m6[k].state
        == ChunkState::Leaf && node_key(m6[k].address) == k && node_ok(m6[k]) && m6[k].address.face < 6 by {
        reveal_with_fuel(roots_upto, 7);
    }
    assert(roots_upto(m0, 0).dom().len() == 0);
    assert(roots_upto(m0, 1).dom().len() == 1);
    assert(roots_upto(m0, 2).dom().len() == 2);
    assert(roots_upto(m0, 3).dom().len() == 3);
    assert(roots_upto(m0, 4).dom().len() == 4);
    assert(roots_upto(m0, 5).dom().len() == 5);
    assert(roots_upto(m0, 6).dom().len() == 6);
}

/// No node wants to change: no leaf wants to split and no subdivided node wants to merge.
pub open spec fn quiet(nodes: Map<u128, QuadtreeNode>, mt: Map<u128, NodeMetrics>, max_depth: u8) -> bool {
    forall|k: u128|
        #[trigger] nodes.contains_key(k) ==> if nodes[k].state == ChunkState::Subdivided {
            !wants_merge(nodes[k].address, mt)
        } else {
            !wants_subdivision(nodes[k].address, mt, max_depth)
        }
}

proof fn lemma_quiet_pass_one(nodes: Map<u128, QuadtreeNode>, order: Seq<u128>, mt: Map<u128, NodeMetrics>, max_depth: u8)
    requires
        quiet(nodes, mt, max_depth),
    ensures
        pass_one(nodes, order, mt, max_depth) == (UpdatePass {
            nodes,
            candidates: Seq::empty(),
            spawns: Seq::empty(),
            despawns: Seq::empty(),
        }),
    decreases order.len(),
{
    if order.len() > 0 {
        lemma_quiet_pass_one(nodes, order.drop_last(), mt, max_depth);
    }
}

/// Law: when the observer gives no node a reason to change, an update
/// changes nothing and spawns and despawns nothing, whatever the budget.
pub proof fn law_quiet_update_changes_nothing(
    nodes: Map<u128, QuadtreeNode>,
    order: Seq<u128>,
    mt: Map<u128, NodeMetrics>,
    max_depth: u8,
    budget: usize,
)
    requires
        quiet(nodes, mt, max_depth),
    ensures
        spec_update(nodes, order, mt, max_depth, budget).0 == nodes,
        spec_update(nodes, order, mt, max_depth, budget).1.len() == 0,
        spec_update(nodes, order, mt, max_depth, budget).2.len() == 0,
{
    lemma_quiet_pass_one(nodes, order, mt, max_depth);
    let first = pass_one(nodes, order, mt, max_depth);
    assert(sort_by_distance(first.candidates).len() == 0);
    let chosen = sort_by_distance(first.candidates).take(0);
    assert(chosen.len() == 0);
    assert(sort_by_distance(Seq::<(QuadtreeAddress, u32)>::empty()).len() == 0);
}

/// No node would change in a walk: no subdivided node merges (it does not
/// want to, or its children are not all leaves) and no other node wants to split.
pub open spec fn settled(nodes: Map<u128, QuadtreeNode>, mt: Map<u128, NodeMetrics>, max_depth: u8) -> bool {
    forall|k: u128|
        #[trigger] nodes.contains_key(k) ==> if nodes[k].state == ChunkState::Subdivided {
            !(wants_merge(nodes[k].address, mt) && all_children_are_leaves(nodes, nodes[k].address))
        } else {
            !wants_subdivision(nodes[k].address, mt, max_depth)
        }
}

proof fn lemma_settled_pass_one(nodes: Map<u128, QuadtreeNode>, order: Seq<u128>, mt: Map<u128, NodeMetrics>, max_depth: u8)
    requires
        settled(nodes, mt, max_depth),
    ensures
        pass_one(nodes, order, mt, max_depth) == (UpdatePass {
            nodes,
            candidates: Seq::empty(),
            spawns: Seq::empty(),
            despawns: Seq::empty(),
        }),
    decreases order.len(),
{
    if order.len() > 0 {
        lemma_settled_pass_one(nodes, order.drop_last(), mt, max_depth);
    }
}

/// A first pass that spawns nothing changes nothing, and each of its
/// candidates is a node of the tree; one that also finds no candidate saw
/// every walked node settled.
proof fn lemma_silent_pass_one(nodes: Map<u128, QuadtreeNode>, order: Seq<u128>, mt: Map<u128, NodeMetrics>, max_depth: u8)
    requires
        keys_match(nodes),
    ensures
        ({
            let r = pass_one(nodes, order, mt, max_depth);
            r.spawns.len() == 0 ==> {
                &&& r.nodes == nodes
                &&& r.despawns.len() == 0
                &&& forall|i: int| 0 <= i < r.candidates.len() ==> nodes.contains_key(node_key(#[trigger] r.candidates[i].0))
                &&& r.candidates.len() == 0 ==> forall|k: u128|
                    order.contains(k) && #[trigger] nodes.contains_key(k) ==> if nodes[k].state == ChunkState::Subdivided {
                        !(wants_merge(nodes[k].address, mt) && all_children_are_leaves(nodes, nodes[k].address))
                    } else {
                        !wants_subdivision(nodes[k].address, mt, max_depth)
                    }
            }
        }),
    decreases order.len(),
{
    if order.len() > 0 {
        let prefix = order.drop_last();
        let k = order.last();
        lemma_silent_pass_one(nodes, prefix, mt, max_depth);
        let p = pass_one(nodes, prefix, mt, max_depth);
        let r = pass_one(nodes, order, mt, max_depth);
        if r.spawns.len() == 0 {
            assert(p.spawns.len() == 0);
            if r.candidates.len() == 0 {
                assert(p.candidates.len() == 0);
                assert forall|x: u128| order.contains(x) && #[trigger] nodes.contains_key(x) implies if nodes[x].state
                    == ChunkState::Subdivided {
                    !(wants_merge(nodes[x].address, mt) && all_children_are_leaves(nodes, nodes[x].address))
                } else {
                    !wants_subdivision(nodes[x].address, mt, max_depth)
                } by {
                    let w = choose|w: int| 0 <= w < order.len() && order[w] == x;
                    if w < order.len() - 1 {
                        assert(prefix[w] == x);
                        assert(prefix.contains(x));
                    }
                }
            }
            assert forall|i: int| 0 <= i < r.candidates.len() implies nodes.contains_key(
                node_key(#[trigger] r.candidates[i].0),
            ) by {
                if i < p.candidates.len() {
                    assert(r.candidates[i] == p.candidates[i]);
                }
            }
        }
    }
}

/// Law: an update that spawns nothing has changed nothing and despawned
/// nothing, provided it walked every node; from then on, every update with
/// the same metrics, whatever its walk order and budget, leaves the tree as
/// it is and spawns and despawns nothing: a stationary observer sees no
/// oscillation.
pub proof fn law_no_spawns_means_settled(
    nodes: Map<u128, QuadtreeNode>,
    order: Seq<u128>,
    mt: Map<u128, NodeMetrics>,
    max_depth: u8,
    budget: usize,
    later_order: Seq<u128>,
    later_budget: usize,
)
    requires
        keys_match(nodes),
        order.to_set() == nodes.dom(),
        spec_update(nodes, order, mt, max_depth, budget).1.len() == 0,
    ensures
        spec_update(nodes, order, mt, max_depth, budget).0 == nodes,
        spec_update(nodes, order, mt, max_depth, budget).2.len() == 0,
        settled(nodes, mt, max_depth),
        spec_update(nodes, later_order, mt, max_depth, later_budget).0 == nodes,
        spec_update(nodes, later_order, mt, max_depth, later_budget).1.len() == 0,
        spec_update(nodes, later_order, mt, max_depth, later_budget).2.len() == 0,
{
    let first = pass_one(nodes, order, mt, max_depth);
    let sorted = sort_by_distance(first.candidates);
    let lim = subdivision_limit(budget, sorted.len()) as int;
    let second = pass_two(first, sorted.take(lim), mt);
    lemma_sort_members(second.spawns);
    lemma_sort_members(first.candidates);
    lemma_pass_two_prefix_spawns(first, sorted, 0, lim, mt);
    assert(sorted.take(0) =~= Seq::<(QuadtreeAddress, u32)>::empty());
    assert(pass_two(first, sorted.take(0), mt) == first);
    lemma_silent_pass_one(nodes, order, mt, max_depth);
    if first.candidates.len() > 0 {
        lemma_pass_two_prefix_spawns(first, sorted, 1, lim, mt);
        assert(sorted.take(1).drop_last() =~= sorted.take(0));
        assert(first.candidates.contains(sorted[0]));
        let w = choose|w: int| 0 <= w < first.candidates.len() && first.candidates[w] == sorted[0];
        assert(nodes.contains_key(node_key(first.candidates[w].0)));
        assert(pass_two(first, sorted.take(1), mt).spawns.len() == 4);
    }
    assert(lim == 0);
    assert(sorted.take(lim) =~= sorted.take(0));
    assert forall|k: u128| #[trigger] nodes.contains_key(k) implies if nodes[k].state == ChunkState::Subdivided {
        !(wants_merge(nodes[k].address, mt) && all_children_are_leaves(nodes, nodes[k].address))
    } else {
        !wants_subdivision(nodes[k].address, mt, max_depth)
    } by {
        assert(order.to_set().contains(k));
    }
    lemma_settled_pass_one(nodes, later_order, mt, max_depth);
    let first2 = pass_one(nodes, later_order, mt, max_depth);
    let sorted2 = sort_by_distance(first2.candidates);
    lemma_sort_members(first2.candidates);
    let lim2 = subdivision_limit(later_budget, sorted2.len()) as int;
    assert(sorted2.take(lim2) =~= Seq::<(QuadtreeAddress, u32)>::empty());
    assert(pass_two(first2, sorted2.take(lim2), mt) == first2);
    lemma_sort_members(first2.spawns);
}

} // verus!
