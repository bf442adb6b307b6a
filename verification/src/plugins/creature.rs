pub mod behavior;
pub mod species;
pub mod spawning;
