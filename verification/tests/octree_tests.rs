use genesis_engine::plugins::quadtree::QuadtreeAddress;
use genesis_engine::plugins::voxel::density::voxel_index;
use genesis_engine::plugins::voxel::octree::OctreeAddress;

#[test]
fn test_surface_address() {
    let qa = QuadtreeAddress::root(0);
    let oa = OctreeAddress::surface(qa);
    assert!(oa.is_surface());
    assert_eq!(oa.radial_index, 0);
}

#[test]
fn test_subsurface_address() {
    let qa = QuadtreeAddress::root(0);
    let below = OctreeAddress::subsurface(qa, -1);
    assert!(!below.is_surface());
    assert_eq!(below.radial_index, -1);
}

#[test]
fn test_above_below() {
    let qa = QuadtreeAddress::root(0);
    let surface = OctreeAddress::surface(qa);
    let above = surface.above();
    let below = surface.below();
    assert_eq!(above.radial_index, 1);
    assert_eq!(below.radial_index, -1);
}

#[test]
fn above_then_below_returns_to_the_same_layer() {
    let qa = QuadtreeAddress::from_xy(2, 4, 9, 3);
    let a = OctreeAddress::subsurface(qa, -7);
    assert_eq!(a.above().below(), a);
    assert_eq!(a.below().above(), a);
    assert_eq!(a.above().surface_address, qa);
}

#[test]
fn voxel_cells_are_stored_slice_by_slice() {
    assert_eq!(voxel_index(32, 0, 0, 0), 0);
    assert_eq!(voxel_index(32, 1, 0, 0), 1);
    assert_eq!(voxel_index(32, 0, 1, 0), 32);
    assert_eq!(voxel_index(32, 0, 0, 1), 1024);
    assert_eq!(voxel_index(32, 31, 31, 31), 32 * 32 * 32 - 1);
}
