//! Reading and writing single cells.
use vstd::prelude::*;

use crate::block::Block;
use crate::node::{
    alive, block_alive, children_ok, depth_of, half_width_spec, in_square, wf, Content, Engine,
    Node, MAX_DEPTH,
};
use crate::pos::{re_center_spec, Pos};
use crate::quad::{quadrant_of, Quad, Quadrant};
use crate::semantics::{lemma_alive_inner, lemma_alive_leaf};

verus! {

/// The bit of cell `(x, y)` of a block, in block coordinates `-4..=3`.
pub fn block_pos_to_mask(pos: Pos) -> (r: u64)
    requires
        in_square(4, pos.x as int, pos.y as int),
    ensures
        r == 1u64 << (27 - (pos.y * 8 + pos.x)) as u64,
        0 <= 27 - (pos.y * 8 + pos.x) < 64,
{
    1u64 << (27 - (pos.y * 8 + pos.x)) as u64
}

/// Whether bit `k` of `b` is set, read through a one-bit mask.
proof fn lemma_mask_bit(b: u64, k: u64)
    requires
        k < 64,
    ensures
        ((b & (1u64 << k)) != 0) == ((b >> k) & 1 == 1),
        (b | (1u64 << k)) >> k & 1 == 1,
        (b & !(1u64 << k)) >> k & 1 == 0,
        forall|j: u64| j < 64 && j != k ==> ((b | (1u64 << k)) >> j) & 1 == (b >> j) & 1,
        forall|j: u64| j < 64 && j != k ==> ((b & !(1u64 << k)) >> j) & 1 == (b >> j) & 1,
{
    assert(k < 64 ==> (((b & (1u64 << k)) != 0) == ((b >> k) & 1 == 1) && (b | (1u64 << k)) >> k & 1 == 1
        && (b & !(1u64 << k)) >> k & 1 == 0 && (forall|j: u64|
        j < 64 && j != k ==> ((b | (1u64 << k)) >> j) & 1 == (b >> j) & 1 && ((b & !(1u64 << k)) >> j)
            & 1 == (b >> j) & 1))) by (bit_vector);
}

impl Node {
    /// Whether the cell at `pos` is alive; cells outside the node are dead.
    pub fn get(&self, pos: Pos) -> (r: bool)
        requires
            wf(*self),
        ensures
            r == alive(*self, pos.x as int, pos.y as int),
    {
        let half_width = self.half_width();
        if pos.x >= half_width || pos.y >= half_width || pos.x < -half_width || pos.y < -half_width {
            false
        } else {
            self.get_in_bounds(pos)
        }
    }

    fn get_in_bounds(&self, pos: Pos) -> (r: bool)
        requires
            wf(*self),
            in_square(half_width_spec(depth_of(*self)), pos.x as int, pos.y as int),
        ensures
            r == alive(*self, pos.x as int, pos.y as int),
        decreases *self,
    {
        let q = Quadrant::from_pos(&pos);
        let h = self.half_width();
        let p = pos.re_center(h / 2);
        match &self.0.content {
            Content::Leaf(leaf) => {
                proof {
                    vstd::arithmetic::power2::lemma2_to64();
                }
                let b = leaf.get(q);
                let m = block_pos_to_mask(p);
                proof {
                    lemma_mask_bit(b.bits, (27 - (p.y * 8 + p.x)) as u64);
                }
                b.bits & m != 0
            },
            Content::Inner(d, inner) => {
                proof {
                    assert(children_ok(*inner, (*d - 1) as nat));
                    vstd::arithmetic::power2::lemma_pow2_unfold((*d + 3) as nat);
                }
                inner.get(q).get_in_bounds(p)
            },
        }
    }

    /// This node with the cell at `pos` set to `alive`, grown by empty
    /// borders until it holds `pos`.
    pub fn set(&self, e: &mut Engine, pos: Pos, value: bool) -> (r: Node)
        requires
            old(e).inv(),
            wf(*self),
            in_square(half_width_spec(MAX_DEPTH as nat), pos.x as int, pos.y as int),
        ensures
            final(e).inv(),
            wf(r),
            depth_of(r) >= depth_of(*self),
            alive(r, pos.x as int, pos.y as int) == value,
            forall|x: int, y: int|
                (x, y) != (pos.x as int, pos.y as int) ==> #[trigger] alive(r, x, y) == alive(*self, x, y),
    {
        let mut n = self.dup();
        while n.outside(pos) && n.depth() < MAX_DEPTH
            invariant
                e.inv(),
                wf(n),
                depth_of(n) >= depth_of(*self),
                in_square(half_width_spec(MAX_DEPTH as nat), pos.x as int, pos.y as int),
                forall|x: int, y: int| #[trigger] alive(n, x, y) == alive(*self, x, y),
            decreases MAX_DEPTH - depth_of(n),
        {
            n = n.expand(e);
        }
        n.set_in_bounds(e, pos, value)
    }

    /// Whether `pos` lies outside this node.
    pub fn outside(&self, pos: Pos) -> (r: bool)
        requires
            wf(*self),
        ensures
            r == !in_square(half_width_spec(depth_of(*self)), pos.x as int, pos.y as int),
    {
        let h = self.half_width();
        pos.x >= h || pos.y >= h || pos.x < -h || pos.y < -h
    }

    fn set_in_bounds(&self, e: &mut Engine, pos: Pos, value: bool) -> (r: Node)
        requires
            old(e).inv(),
            wf(*self),
            in_square(half_width_spec(depth_of(*self)), pos.x as int, pos.y as int),
        ensures
            final(e).inv(),
            wf(r),
            depth_of(r) == depth_of(*self),
            alive(r, pos.x as int, pos.y as int) == value,
            forall|x: int, y: int|
                (x, y) != (pos.x as int, pos.y as int) ==> #[trigger] alive(r, x, y) == alive(*self, x, y),
        decreases *self,
    {
        let q = Quadrant::from_pos(&pos);
        let h = self.half_width();
        let p = pos.re_center(h / 2);
        match &self.0.content {
            Content::Leaf(leaf) => {
                proof {
                    vstd::arithmetic::power2::lemma2_to64();
                }
                let mut leaf = *leaf;
                let child = leaf.get(q).bits;
                let mask = block_pos_to_mask(p);
                proof {
                    lemma_mask_bit(child, (27 - (p.y * 8 + p.x)) as u64);
                }
                let bits = if value {
                    child | mask
                } else {
                    child & !mask
                };
                let ghost old_leaf = leaf;
                leaf.set(q, Block::from_rows(bits));
                let r = Node::new_leaf(e, leaf);
                proof {
                    let k = (27 - (p.y * 8 + p.x)) as u64;
                    assert forall|x: int, y: int|
                        (x, y) != (pos.x as int, pos.y as int) implies #[trigger] alive(r, x, y) == alive(*self, x, y) by {
                        lemma_alive_leaf(r, x, y);
                        lemma_alive_leaf(*self, x, y);
                        if in_square(8, x, y) && quadrant_of(x, y) == q {
                            let bx = re_center_spec(x, 4);
                            let by = re_center_spec(y, 4);
                            if in_square(4, bx, by) {
                                let j = (27 - (by * 8 + bx)) as u64;
                                assert(j != k);
                            }
                        }
                    }
                    lemma_alive_leaf(r, pos.x as int, pos.y as int);
                }
                r
            },
            Content::Inner(d, inner) => {
                proof {
                    assert(children_ok(*inner, (*d - 1) as nat));
                    vstd::arithmetic::power2::lemma_pow2_unfold((*d + 3) as nat);
                }
                let c = inner.get(q).set_in_bounds(e, p, value);
                let out = match q {
                    Quadrant::NW => Quad { nw: c, ne: inner.ne.dup(), sw: inner.sw.dup(), se: inner.se.dup() },
                    Quadrant::NE => Quad { nw: inner.nw.dup(), ne: c, sw: inner.sw.dup(), se: inner.se.dup() },
                    Quadrant::SW => Quad { nw: inner.nw.dup(), ne: inner.ne.dup(), sw: c, se: inner.se.dup() },
                    Quadrant::SE => Quad { nw: inner.nw.dup(), ne: inner.ne.dup(), sw: inner.sw.dup(), se: c },
                };
                let r = Node::new_depth_inner(e, *d, out);
                proof {
                    assert forall|x: int, y: int|
                        (x, y) != (pos.x as int, pos.y as int) implies #[trigger] alive(r, x, y) == alive(*self, x, y) by {
                        lemma_alive_inner(r, x, y);
                        lemma_alive_inner(*self, x, y);
                    }
                    lemma_alive_inner(r, pos.x as int, pos.y as int);
                }
                r
            },
        }
    }
}

} // verus!
