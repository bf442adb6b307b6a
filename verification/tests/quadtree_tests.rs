//! Quadtree addressing and subdivision tests.
//!
//! The chunk geometry (chunk centers on the sphere, distances to the
//! observer) is computed here in f32, the way the game computes it, and
//! handed to the quadtree as a metrics table.

use genesis_engine::plugins::quadtree::{MetricsTable, NodeMetrics, QuadtreeAddress, QuadtreeManager};

const RADIUS: f32 = 20000.0;
const SUBDIVISION_THRESHOLD: f32 = 8.0;
const MERGE_THRESHOLD: f32 = 12.0;

type V3 = [f32; 3];

fn sub(a: V3, b: V3) -> V3 {
    [a[0] - b[0], a[1] - b[1], a[2] - b[2]]
}

fn add(a: V3, b: V3) -> V3 {
    [a[0] + b[0], a[1] + b[1], a[2] + b[2]]
}

fn scale(a: V3, s: f32) -> V3 {
    [a[0] * s, a[1] * s, a[2] * s]
}

fn length(a: V3) -> f32 {
    (a[0] * a[0] + a[1] * a[1] + a[2] * a[2]).sqrt()
}

fn cross(a: V3, b: V3) -> V3 {
    [a[1] * b[2] - a[2] * b[1], a[2] * b[0] - a[0] * b[2], a[0] * b[1] - a[1] * b[0]]
}

fn face_direction(face: u8) -> V3 {
    match face {
        0 => [0.0, 1.0, 0.0],
        1 => [0.0, -1.0, 0.0],
        2 => [1.0, 0.0, 0.0],
        3 => [-1.0, 0.0, 0.0],
        4 => [0.0, 0.0, 1.0],
        5 => [0.0, 0.0, -1.0],
        _ => panic!("Invalid face index"),
    }
}

fn relative_size(a: &QuadtreeAddress) -> f32 {
    1.0 / (1u32 << a.depth) as f32
}

fn world_center(a: &QuadtreeAddress, radius: f32) -> V3 {
    let (ix, iy) = a.to_xy();
    let grid_size = (1u32 << a.depth) as f32;
    let cx = (ix as f32 + 0.5) / grid_size * 2.0 - 1.0;
    let cy = (iy as f32 + 0.5) / grid_size * 2.0 - 1.0;
    let dir = face_direction(a.face);
    let axis_a = if dir[1].abs() > 0.9 { [1.0, 0.0, 0.0] } else { [0.0, 1.0, 0.0] };
    let axis_b = cross(dir, axis_a);
    let p = add(add(dir, scale(axis_a, cx)), scale(axis_b, cy));
    scale(p, radius / length(p))
}

fn metrics_for(m: &QuadtreeManager, observer: V3) -> MetricsTable {
    let mut table = MetricsTable::new();
    for a in m.metric_requests() {
        let distance = length(sub(observer, world_center(&a, RADIUS)));
        let chunk_size = RADIUS * 2.0 * relative_size(&a);
        let beyond = match a.parent() {
            Some(parent) => {
                let pd = length(sub(observer, world_center(&parent, RADIUS)));
                pd > RADIUS * 2.0 * relative_size(&parent) * MERGE_THRESHOLD
            }
            None => false,
        };
        table.insert(
            &a,
            NodeMetrics {
                distance_key: distance.to_bits(),
                within_subdivision_range: distance < chunk_size * SUBDIVISION_THRESHOLD,
                beyond_merge_range: beyond,
            },
        );
    }
    table
}

fn update(m: &mut QuadtreeManager, observer: V3, max_subdivisions: usize) -> (Vec<QuadtreeAddress>, Vec<QuadtreeAddress>) {
    let table = metrics_for(m, observer);
    m.update(&table, max_subdivisions)
}

fn make_manager() -> QuadtreeManager {
    let mut m = QuadtreeManager::new();
    m.initialize();
    m
}

fn y_axis(distance: f32) -> V3 {
    [0.0, distance, 0.0]
}

#[test]
fn test_quadtree_address_children() {
    let root = QuadtreeAddress::root(0);
    assert_eq!(root.depth, 0);

    let children = root.children();
    assert_eq!(children.len(), 4);

    for child in &children {
        assert_eq!(child.depth, 1);
        assert_eq!(child.parent(), Some(root));
    }
}

#[test]
fn test_morton_xy_conversion() {
    let addr = QuadtreeAddress::from_xy(0, 3, 5, 3);
    let (x, y) = addr.to_xy();
    assert_eq!(x, 5);
    assert_eq!(y, 3);
}

#[test]
fn test_relative_size() {
    let root = QuadtreeAddress::root(0);
    assert_eq!(relative_size(&root), 1.0);

    let child = root.child(0);
    assert_eq!(relative_size(&child), 0.5);

    let grandchild = child.child(0);
    assert_eq!(relative_size(&grandchild), 0.25);
}

#[test]
fn quadtree_test_subdivision_budget_limits_growth() {
    let mut m = make_manager();
    // Observer right on the surface — triggers aggressive subdivision
    let surface = y_axis(20001.0);
    let (spawned, _) = update(&mut m, surface, 2);
    // Budget 2: at most 2 subdivisions × 4 children = 8 spawns
    assert!(spawned.len() <= 8, "Budget 2 should produce at most 8 spawns, got {}", spawned.len());
}

#[test]
fn test_unlimited_budget_subdivides_freely() {
    let mut m = make_manager();
    let surface = y_axis(20001.0);
    let (spawned_unlimited, _) = update(&mut m, surface, 0);
    assert!(spawned_unlimited.len() >= 4, "Unlimited should subdivide at least one node");
}

#[test]
fn test_closest_nodes_subdivide_first() {
    let mut m = make_manager();
    let surface = y_axis(20001.0);
    let (spawned, _) = update(&mut m, surface, 1);
    assert!(spawned.len() <= 4, "Budget 1 = at most 4 children from 1 subdivision");
    for addr in &spawned {
        assert_eq!(addr.face, 0, "Budget 1 near +Y should subdivide face 0 first, got face {}", addr.face);
    }
}

/// Simulates an Orbital → Surface camera switch.
#[test]
fn test_orbital_to_surface_bounded() {
    let mut m = make_manager();

    let orbital = y_axis(100_000.0);
    for _ in 0..50 {
        update(&mut m, orbital, 8);
    }

    let surface = y_axis(20_001.0);
    let (spawned, _) = update(&mut m, surface, 8);
    assert!(
        spawned.len() <= 32,
        "Surface frame should spawn at most 32 nodes with budget 8, got {}",
        spawned.len()
    );

    let mut m_unlimited = make_manager();
    for _ in 0..50 {
        update(&mut m_unlimited, orbital, 0);
    }
    let (spawned_unlimited, _) = update(&mut m_unlimited, surface, 0);
    assert!(
        spawned_unlimited.len() > spawned.len(),
        "Unlimited should produce more spawns ({}) than budgeted ({})",
        spawned_unlimited.len(),
        spawned.len()
    );
}

#[test]
fn quadtree_regression_test_subdivision_budget_limits_growth() {
    let mut m = make_manager();
    let surface = y_axis(20_001.0);
    let (spawned, _) = update(&mut m, surface, 2);
    assert!(spawned.len() <= 8, "Budget 2 should produce at most 8 spawns, got {}", spawned.len());
}

#[test]
fn test_progressive_deepening_converges() {
    let mut m = make_manager();
    let surface = y_axis(20_001.0);

    let mut total_spawned = 0;
    let mut zero_count = 0;
    for _ in 0..1000 {
        let (spawned, _) = update(&mut m, surface, 8);
        total_spawned += spawned.len();
        if spawned.is_empty() {
            zero_count += 1;
            if zero_count >= 5 {
                break;
            }
        } else {
            zero_count = 0;
        }
    }
    assert!(
        zero_count >= 5,
        "Quadtree should converge (5 idle frames) within 1000 updates (total spawned: {})",
        total_spawned
    );
}

#[test]
fn test_merge_hysteresis() {
    let mut m = make_manager();
    let surface = y_axis(20_001.0);
    for _ in 0..1000 {
        let (spawned, _) = update(&mut m, surface, 8);
        if spawned.is_empty() {
            break;
        }
    }

    let node_count_before = m.nodes.len();
    let mut any_change = false;
    for _ in 0..10 {
        let (spawned, despawned) = update(&mut m, surface, 8);
        if !spawned.is_empty() || !despawned.is_empty() {
            any_change = true;
        }
    }
    assert!(
        !any_change,
        "Stable observer should not cause oscillation (nodes before: {}, after: {})",
        node_count_before,
        m.nodes.len()
    );
}

#[test]
fn test_initial_state() {
    let m = make_manager();
    assert_eq!(m.nodes.len(), 6, "Should start with 6 root nodes (one per face)");
    for face in 0..6 {
        let root = QuadtreeAddress::root(face);
        assert!(m.nodes.contains_key(&root), "Missing root for face {}", face);
    }
}

#[test]
fn test_budget_ordering() {
    let surface = y_axis(20_001.0);
    let mut m2 = make_manager();
    let (s2, _) = update(&mut m2, surface, 2);
    let mut m8 = make_manager();
    let (s8, _) = update(&mut m8, surface, 8);
    assert!(
        s2.len() <= s8.len(),
        "Budget 2 ({}) should produce <= spawns than budget 8 ({})",
        s2.len(),
        s8.len()
    );
}

#[test]
fn test_closest_face_subdivides_first() {
    let mut m = make_manager();
    let surface = y_axis(20_001.0);
    let (spawned, _) = update(&mut m, surface, 1);
    assert_eq!(spawned.len(), 4, "Budget 1 should produce exactly 4 spawns");
    for addr in &spawned {
        assert_eq!(addr.face, 0, "Near +Y surface, budget 1 should subdivide face 0, got face {}", addr.face);
    }
}

#[test]
fn test_spawned_sorted_by_distance() {
    let mut m = make_manager();
    let surface = y_axis(20_001.0);
    let (spawned, _) = update(&mut m, surface, 4);
    let distances: Vec<f32> = spawned
        .iter()
        .map(|addr| {
            assert!(m.nodes.get(addr).is_some());
            length(sub(surface, world_center(addr, RADIUS)))
        })
        .collect();
    for i in 1..distances.len() {
        assert!(
            distances[i - 1] <= distances[i] + 0.01,
            "Spawned list not sorted by distance: [{:.1}] at {} > [{:.1}] at {}",
            distances[i - 1],
            i - 1,
            distances[i],
            i
        );
    }
}
