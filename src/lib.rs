//! A hash-consed quadtree engine for Conway's Game of Life (B3/S23).
use vstd::prelude::*;

pub mod bit;
pub mod block;
pub mod center;
pub mod clip;
pub mod get;
pub mod life;
pub mod mc_format;
pub mod memo;
pub mod node;
pub mod offset;
pub mod offset_norm;
pub mod population;
pub mod pos;
pub mod quad;
pub mod rect;
pub mod reduce;
pub mod rotate;
pub mod semantics;
pub mod step;

pub use block::Block;
pub use node::{Engine, Node, MAX_DEPTH};
pub use pos::Pos;
pub use quad::{DepthQuad, Quad, Quadrant};
pub use rect::Rect;
pub use step::{depth_to_max_steps, steps_to_min_depth};

verus! {

} // verus!
