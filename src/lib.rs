pub mod geometry;
pub mod layers;
pub mod tile;
pub mod tree;
pub mod util;
