pub mod density;
pub mod octree;
