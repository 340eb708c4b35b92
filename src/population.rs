//! Counting live cells.
use vstd::prelude::*;

use crate::block::Block;
use crate::node::{block_population, children_ok, depth_of, pop_of, wf, Content, Node};
use crate::quad::{DepthQuad, Quad};

verus! {

/// Things that hold cells and can count them.
pub trait Population {
    /// The number of live cells; `u64::MAX` may stand for more.
    fn population(&self) -> u64;

    /// Whether no cell is alive.
    fn is_empty(&self) -> bool;
}

impl Population for Block {
    fn population(&self) -> u64 {
        block_population(*self)
    }

    fn is_empty(&self) -> bool {
        self.bits == 0
    }
}

impl Population for Quad<Block> {
    fn population(&self) -> u64 {
        let a = block_population(self.nw);
        let b = block_population(self.ne);
        let c = block_population(self.sw);
        let d = block_population(self.se);
        a.saturating_add(b).saturating_add(c).saturating_add(d)
    }

    fn is_empty(&self) -> bool {
        self.nw.bits == 0 && self.ne.bits == 0 && self.sw.bits == 0 && self.se.bits == 0
    }
}

impl Quad<&Node> {
    /// The contents of four nodes of one depth, side by side: their blocks
    /// when they are leaves, their children otherwise.
    pub fn children(&self) -> (r: DepthQuad<Quad<Block>, Quad<Node>>)
        requires
            wf(*self.nw) && wf(*self.ne) && wf(*self.sw) && wf(*self.se),
            depth_of(*self.nw) == depth_of(*self.ne) == depth_of(*self.sw) == depth_of(*self.se),
        ensures
            r.depth_spec() == depth_of(*self.nw),
    {
        match (&self.nw.0.content, &self.ne.0.content, &self.sw.0.content, &self.se.0.content) {
            (Content::Leaf(a), Content::Leaf(b), Content::Leaf(c), Content::Leaf(d)) => {
                DepthQuad::Leaf(Quad { nw: *a, ne: *b, sw: *c, se: *d })
            },
            (Content::Inner(dd, a), Content::Inner(_, b), Content::Inner(_, c), Content::Inner(_, d)) => {
                DepthQuad::Inner(
                    *dd,
                    Quad {
                        nw: Quad { nw: a.nw.dup(), ne: a.ne.dup(), sw: a.sw.dup(), se: a.se.dup() },
                        ne: Quad { nw: b.nw.dup(), ne: b.ne.dup(), sw: b.sw.dup(), se: b.se.dup() },
                        sw: Quad { nw: c.nw.dup(), ne: c.ne.dup(), sw: c.sw.dup(), se: c.se.dup() },
                        se: Quad { nw: d.nw.dup(), ne: d.ne.dup(), sw: d.sw.dup(), se: d.se.dup() },
                    },
                )
            },
            _ => {
                proof {
                    assert(false);
                }
                let z = Block::empty();
                let zq = Quad { nw: z, ne: z, sw: z, se: z };
                DepthQuad::Leaf(Quad { nw: zq, ne: zq, sw: zq, se: zq })
            },
        }
    }
}

} // verus!
