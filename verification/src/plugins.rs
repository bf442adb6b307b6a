pub mod quadtree;
pub mod quadtree_manager;
pub mod quadtree_shape;
pub mod quadtree_progress;
pub mod quadtree_levels;
pub mod voxel;
pub mod creature;
pub mod discovery;
pub mod ecosystem;
pub mod simulation;
pub mod camera;
pub mod speculative_physics;
pub mod technology;
pub mod chunked_terrain;
pub mod chunk_mesh;
pub mod climate;
