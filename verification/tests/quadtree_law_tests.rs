use genesis_engine::plugins::quadtree::{
    chunks_to_spawn, ChunkEntities, ChunkState, MetricsTable, NodeMetrics, QuadtreeAddress, QuadtreeManager,
};

#[test]
fn parent_of_child_is_the_node() {
    let a = QuadtreeAddress::from_xy(3, 5, 17, 9);
    for q in 0..4u8 {
        assert_eq!(a.child(q).parent(), Some(a));
    }
    assert_eq!(QuadtreeAddress::root(4).parent(), None);
}

#[test]
fn child_extends_morton_code() {
    let a = QuadtreeAddress { face: 1, depth: 2, morton: 0b1101 };
    let c = a.child(2);
    assert_eq!(c, QuadtreeAddress { face: 1, depth: 3, morton: 0b110110 });
}

#[test]
fn xy_round_trip_and_truncation() {
    let a = QuadtreeAddress::from_xy(0, 3, 5, 3);
    assert_eq!(a.morton, 0b011011);
    assert_eq!(QuadtreeAddress::from_xy(0, 2, 7, 4).to_xy(), (3, 0));
    let deep = QuadtreeAddress::from_xy(5, 32, u32::MAX, 0x1234_5678);
    assert_eq!(deep.to_xy(), (u32::MAX, 0x1234_5678));
    let b = QuadtreeAddress { face: 2, depth: 4, morton: 0b1011_0010 };
    let (x, y) = b.to_xy();
    assert_eq!(QuadtreeAddress::from_xy(2, 4, x, y), b);
}

#[test]
fn ancestors_run_from_root() {
    let a = QuadtreeAddress::from_xy(1, 3, 6, 2);
    let chain = a.ancestors();
    assert_eq!(chain.len(), 4);
    assert_eq!(chain[0], QuadtreeAddress::root(1));
    assert_eq!(chain[3], a);
    for i in 1..chain.len() {
        assert_eq!(chain[i].parent(), Some(chain[i - 1]));
    }
}

fn table(m: &QuadtreeManager, near: &[QuadtreeAddress], far: &[QuadtreeAddress]) -> MetricsTable {
    let mut t = MetricsTable::new();
    for a in m.metric_requests() {
        t.insert(
            &a,
            NodeMetrics {
                distance_key: (a.face as u32) * 1000 + a.morton as u32,
                within_subdivision_range: near.contains(&a),
                beyond_merge_range: far.contains(&a),
            },
        );
    }
    t
}

#[test]
fn subdivide_then_merge_restores_leaf() {
    let mut m = QuadtreeManager::new();
    m.initialize();
    let root = QuadtreeAddress::root(2);
    let t = table(&m, &[root], &[]);
    let (spawned, despawned) = m.update(&t, 0);
    assert_eq!(spawned, root.children().to_vec());
    assert!(despawned.is_empty());
    assert_eq!(m.nodes.get(&root).unwrap().state, ChunkState::Subdivided);
    assert_eq!(m.nodes.len(), 10);

    // Give two children meshes; a merge of a subdivided child then hides them.
    let child = root.child(1);
    let t = table(&m, &[child], &[]);
    let (spawned, _) = m.update(&t, 0);
    assert_eq!(spawned.len(), 4);
    m.set_entity(child.child(0), 42);
    m.set_entity(child.child(3), 43);
    assert!(!m.all_children_loaded(&child));
    let t = table(&m, &[], &[child]);
    let (spawned, despawned) = m.update(&t, 0);
    assert_eq!(spawned, vec![child]);
    assert_eq!(despawned, vec![child.child(0), child.child(3)]);
    assert_eq!(m.nodes.get(&child).unwrap().state, ChunkState::Leaf);
    assert!(!m.nodes.contains_key(&child.child(0)));
}

#[test]
fn fallback_parents_and_visible_chunks() {
    let mut m = QuadtreeManager::new();
    m.initialize();
    let root = QuadtreeAddress::root(0);
    m.set_entity(root, 7);
    let t = table(&m, &[root], &[]);
    m.update(&t, 1);
    assert_eq!(m.get_fallback_parents(), vec![root]);
    assert_eq!(m.get_visible_chunks().len(), 9);
    for c in root.children() {
        m.set_entity(c, 1);
    }
    assert!(m.all_children_loaded(&root));
    m.set_generating(root.child(0));
    assert_eq!(m.nodes.get(&root.child(0)).unwrap().state, ChunkState::Generating);
    assert_eq!(m.get_visible_chunks().len(), 8);
    m.set_generated(root.child(0));
    assert_eq!(m.get_visible_chunks().len(), 9);
}

#[test]
fn budget_picks_closest_candidates() {
    let mut m = QuadtreeManager::new();
    m.initialize();
    let near: Vec<QuadtreeAddress> = (0..6).map(QuadtreeAddress::root).collect();
    let t = table(&m, &near, &[]);
    let (spawned, _) = m.update(&t, 2);
    assert_eq!(spawned.len(), 8);
    for a in &spawned {
        assert!(a.face <= 1);
    }
}

#[test]
fn depth_limit_stops_subdivision() {
    let mut m = QuadtreeManager::new();
    m.max_depth = 0;
    m.initialize();
    let near: Vec<QuadtreeAddress> = (0..6).map(QuadtreeAddress::root).collect();
    let t = table(&m, &near, &[]);
    let (spawned, despawned) = m.update(&t, 0);
    assert!(spawned.is_empty());
    assert!(despawned.is_empty());
    assert_eq!(m.nodes.len(), 6);
}

#[test]
fn parents_hide_once_children_have_meshes() {
    let mut m = QuadtreeManager::new();
    m.initialize();
    let root = QuadtreeAddress::root(3);
    m.set_entity(root, 11);
    let t = table(&m, &[root], &[]);
    m.update(&t, 0);
    assert!(m.parents_ready_to_hide().is_empty());
    for (i, c) in root.children().iter().enumerate() {
        m.set_entity(*c, 20 + i as u64);
    }
    assert_eq!(m.parents_ready_to_hide(), vec![root]);
    m.clear_entity(root);
    assert_eq!(m.nodes.get(&root).unwrap().entity, None);
    assert!(m.parents_ready_to_hide().is_empty());
    // Clearing an address that is not in the tree changes nothing.
    let before = m.nodes.len();
    m.clear_entity(root.child(0).child(0));
    assert_eq!(m.nodes.len(), before);
}

#[test]
fn spawn_list_is_capped_and_skips_existing() {
    let list: Vec<QuadtreeAddress> = (0..6).map(QuadtreeAddress::root).collect();
    let mut existing = ChunkEntities::new();
    existing.insert(&list[1], 5);
    existing.insert(&list[4], 6);
    assert_eq!(existing.len(), 2);
    assert!(existing.contains_key(&list[1]));
    assert_eq!(chunks_to_spawn(&list, &existing, 4), vec![list[0], list[2], list[3]]);
    assert_eq!(chunks_to_spawn(&list, &existing, 100), vec![list[0], list[2], list[3], list[5]]);
    assert!(chunks_to_spawn(&list, &existing, 0).is_empty());
    assert_eq!(existing.remove(&list[1]), Some(5));
    assert_eq!(existing.remove(&list[1]), None);
    assert!(!existing.contains_key(&list[1]));
    assert_eq!(chunks_to_spawn(&list, &existing, 2), vec![list[0], list[1]]);
}

#[test]
fn metric_requests_cover_nodes_and_children() {
    let mut m = QuadtreeManager::new();
    assert!(m.metric_requests().is_empty());
    m.initialize();
    let requests = m.metric_requests();
    assert_eq!(requests.len(), 30);
    for face in 0..6u8 {
        let root = QuadtreeAddress::root(face);
        assert!(requests.contains(&root));
        for c in root.children() {
            assert!(requests.contains(&c));
        }
    }
}

/// Every leaf below the roots hangs under a subdivided parent that has all
/// four children, all the way up.
fn assert_tree_shaped(m: &QuadtreeManager) {
    for leaf in m.get_visible_chunks() {
        let mut a = leaf.address;
        while let Some(parent) = a.parent() {
            let node = m.nodes.get(&parent).expect("parent present");
            assert_eq!(node.state, ChunkState::Subdivided);
            for c in parent.children() {
                assert!(m.nodes.contains_key(&c));
            }
            a = parent;
        }
    }
}

#[test]
fn updates_keep_the_tree_shaped() {
    let mut m = QuadtreeManager::new();
    m.initialize();
    assert_tree_shaped(&m);
    let root = QuadtreeAddress::root(5);
    let child = root.child(2);
    let grandchild = child.child(1);
    for near in [vec![root], vec![root, child], vec![root, child, grandchild], vec![]] {
        let t = table(&m, &near, &[]);
        m.update(&t, 1);
        assert_tree_shaped(&m);
    }
    // Far from everything: subdivided chunks merge back level by level.
    let all: Vec<QuadtreeAddress> = m.metric_requests();
    for _ in 0..4 {
        let t = table(&m, &[], &all);
        m.update(&t, 0);
        assert_tree_shaped(&m);
    }
    assert_eq!(m.nodes.len(), 10);
}

#[test]
fn spawns_bounded_by_budget_and_merges() {
    let mut m = QuadtreeManager::new();
    m.initialize();
    let root = QuadtreeAddress::root(1);
    let t = table(&m, &[root], &[]);
    m.update(&t, 1);
    let child = root.child(0);
    let t = table(&m, &[child], &[]);
    m.update(&t, 1);
    // Two subdivided chunks: the root (which cannot merge) and its child.
    let subdivided = m.get_fallback_parents().len() + 2;
    let near: Vec<QuadtreeAddress> = (0..6).map(QuadtreeAddress::root).collect();
    let t = table(&m, &near, &[child]);
    let (spawned, _) = m.update(&t, 1);
    assert!(spawned.len() <= 4 + subdivided);
    assert!(spawned.contains(&child));
    assert_eq!(spawned.len(), 5);
}

#[test]
fn stationary_observer_settles() {
    let mut m = QuadtreeManager::new();
    m.initialize();
    let root = QuadtreeAddress::root(4);
    let near = vec![root, root.child(0), root.child(1), root.child(0).child(3)];
    let mut settled = false;
    for _ in 0..20 {
        let t = table(&m, &near, &[]);
        let (spawned, despawned) = m.update(&t, 1);
        if spawned.is_empty() && despawned.is_empty() {
            settled = true;
            break;
        }
    }
    assert!(settled);
    // 6 roots, 4 children of the root, 4 under each of two children, 4 more below.
    assert_eq!(m.nodes.len(), 6 + 4 + 8 + 4);
    let before = m.nodes.len();
    let t = table(&m, &near, &[]);
    let (spawned, despawned) = m.update(&t, 1);
    assert!(spawned.is_empty() && despawned.is_empty());
    assert_eq!(m.nodes.len(), before);
}

#[test]
fn merges_do_not_wait_for_the_budget() {
    let build = || {
        let mut m = QuadtreeManager::new();
        m.initialize();
        let root = QuadtreeAddress::root(2);
        let t = table(&m, &[root], &[]);
        m.update(&t, 0);
        let child = root.child(3);
        let t = table(&m, &[child], &[]);
        m.update(&t, 0);
        for c in child.children() {
            m.set_entity(c, 9);
        }
        m
    };
    let mut limited = build();
    let mut unlimited = build();
    let child = QuadtreeAddress::root(2).child(3);
    let near: Vec<QuadtreeAddress> = (0..6).map(QuadtreeAddress::root).collect();
    let t = table(&limited, &near, &[child]);
    let (_, despawned_limited) = limited.update(&t, 1);
    let (_, despawned_unlimited) = unlimited.update(&t, 0);
    assert_eq!(despawned_limited, despawned_unlimited);
    assert_eq!(despawned_limited.len(), 4);
}

/// The nodes of the tree, found through the metric requests, in a fixed order.
fn all_nodes(m: &QuadtreeManager) -> Vec<QuadtreeAddress> {
    let mut v: Vec<QuadtreeAddress> = m.metric_requests().into_iter().filter(|a| m.nodes.contains_key(a)).collect();
    v.sort_by_key(|a| (a.face, a.depth, a.morton));
    v.dedup();
    v
}

#[test]
fn spawns_grow_with_budget() {
    let build = || {
        let mut m = QuadtreeManager::new();
        m.initialize();
        m
    };
    let near: Vec<QuadtreeAddress> = (0..6).map(QuadtreeAddress::root).collect();
    let mut counts = Vec::new();
    for budget in [1usize, 3, 5, 0] {
        let mut m = build();
        let t = table(&m, &near, &[]);
        let (spawned, despawned) = m.update(&t, budget);
        assert!(despawned.is_empty());
        counts.push(spawned.len());
    }
    assert_eq!(counts, vec![4, 12, 20, 24]);
    for w in counts.windows(2) {
        assert!(w[0] <= w[1]);
    }
}

#[test]
fn update_without_spawns_changes_nothing_after() {
    let mut m = QuadtreeManager::new();
    m.initialize();
    let root = QuadtreeAddress::root(3);
    let near = vec![root, root.child(2)];
    let mut rounds = 0;
    loop {
        let t = table(&m, &near, &[]);
        let before = all_nodes(&m);
        let (spawned, despawned) = m.update(&t, 1);
        rounds += 1;
        if spawned.is_empty() {
            assert!(despawned.is_empty());
            assert_eq!(all_nodes(&m), before);
            break;
        }
        assert!(rounds < 10);
    }
    for _ in 0..3 {
        let t = table(&m, &near, &[]);
        let before = all_nodes(&m);
        let (spawned, despawned) = m.update(&t, 1);
        assert!(spawned.is_empty() && despawned.is_empty());
        assert_eq!(all_nodes(&m), before);
    }
}

#[test]
fn roots_stay_and_depth_stays_bounded() {
    let mut m = QuadtreeManager::new();
    m.initialize();
    m.max_depth = 3;
    let roots: Vec<QuadtreeAddress> = (0..6).map(QuadtreeAddress::root).collect();
    // Near everything: the tree grows until the maximum depth stops it.
    for _ in 0..6 {
        let all = m.metric_requests();
        let t = table(&m, &all, &[]);
        m.update(&t, 0);
        for a in all_nodes(&m) {
            assert!(a.depth <= 3);
        }
        for r in &roots {
            assert!(m.nodes.contains_key(r));
        }
    }
    let deepest = all_nodes(&m).iter().map(|a| a.depth).max().unwrap();
    assert_eq!(deepest, 3);
    assert_eq!(all_nodes(&m).len(), 6 * (1 + 4 + 16 + 64));
    // Far from everything: the tree shrinks back to the roots' children,
    // since a root never merges; the roots stay.
    for _ in 0..6 {
        let all = m.metric_requests();
        let t = table(&m, &[], &all);
        m.update(&t, 0);
        for r in &roots {
            assert!(m.nodes.contains_key(r));
        }
    }
    let left = all_nodes(&m);
    assert_eq!(left.len(), 6 * 5);
    assert_eq!(left.iter().filter(|a| a.depth == 0).copied().collect::<Vec<_>>(), roots);
    assert!(left.iter().all(|a| a.depth <= 1));
}

#[test]
fn unsplit_chunks_have_no_children() {
    let mut m = QuadtreeManager::new();
    m.initialize();
    let root = QuadtreeAddress::root(0);
    let near = vec![root, root.child(1), root.child(1).child(1)];
    for _ in 0..4 {
        let t = table(&m, &near, &[]);
        m.update(&t, 2);
        for a in all_nodes(&m) {
            let node = m.nodes.get(&a).unwrap();
            if node.state != ChunkState::Subdivided {
                for c in a.children() {
                    assert!(!m.nodes.contains_key(&c));
                }
            }
        }
    }
}

#[test]
fn spawn_count_is_four_per_split_without_merges() {
    let root = QuadtreeAddress::root(0);
    let build = || {
        let mut m = QuadtreeManager::new();
        m.initialize();
        let t = table(&m, &[root], &[]);
        let (spawned, _) = m.update(&t, 0);
        assert_eq!(spawned.len(), 4);
        m
    };
    // Five chunks want to split: the four children of face 0 and the root of face 1.
    let mut near: Vec<QuadtreeAddress> = root.children().to_vec();
    near.push(QuadtreeAddress::root(1));
    for (budget, expected) in [(1usize, 4usize), (2, 8), (5, 20), (9, 20), (0, 20)] {
        let mut m = build();
        let t = table(&m, &near, &[]);
        let (spawned, despawned) = m.update(&t, budget);
        assert_eq!(spawned.len(), expected);
        assert!(despawned.is_empty());
    }
}
