//! Keeping or clearing the cells of a rectangle.
use vstd::prelude::*;

use crate::block::{Block, BLOCK_HALF_WIDTH};
use crate::node::{alive, block_alive, in_square, children_ok, depth_of, half_width_spec, lemma_pow2_fits, pop_of, quad_pop_nodes, wf, Content, Engine, Node};
use crate::pos::Pos;
use crate::quad::{quadrant_of, Quad};
use crate::pos::re_center_spec;
use crate::semantics::{alive_blocks, cleared, clipped};
use crate::rect::{max_i, min_i, Rect, Side};
use vstd::arithmetic::power2::pow2;
use crate::semantics::lemma_block_mask;

verus! {

/// The bit of cell `(x, y)` of a block, in block coordinates `-4..=3`.
pub open spec fn cell_bit(x: int, y: int) -> u64 {
    (27 - 8 * y - x) as u64
}

/// Whether `r` shares no cell with the square of half width `h`.
pub open spec fn misses(r: Rect, h: int) -> bool {
    max_i(r.x.min as int, -h) > min_i(r.x.max as int, h - 1) || max_i(r.y.min as int, -h) > min_i(
        r.y.max as int,
        h - 1,
    )
}

/// Whether `r` holds every cell of the square of half width `h`.
pub open spec fn covers(r: Rect, h: int) -> bool {
    r.x.min <= -h && h - 1 <= r.x.max && r.y.min <= -h && h - 1 <= r.y.max
}

/// A rectangle, possibly empty, in the frame of a node of half width `h`:
/// min ends in `-h..=3h`, max ends in `-3h..=h-1`.
pub open spec fn bounded(r: Rect, h: int) -> bool {
    &&& -h <= r.x.min <= 3 * h && -3 * h <= r.x.max <= h - 1
    &&& -h <= r.y.min <= 3 * h && -3 * h <= r.y.max <= h - 1
}

/// A non-empty rectangle inside the square of half width `h`.
pub open spec fn inside(r: Rect, h: int) -> bool {
    &&& -h <= r.x.min <= r.x.max <= h - 1
    &&& -h <= r.y.min <= r.y.max <= h - 1
}

/// The square `-h..=h-1` on both axes.
pub open spec fn square(h: int) -> Rect {
    Rect { x: Side { min: (-h) as i64, max: (h - 1) as i64 }, y: Side { min: (-h) as i64, max: (h - 1) as i64 } }
}

impl Node {
    /// This node with every cell outside `rect` cleared.
    pub fn clip(&self, e: &mut Engine, rect: Rect) -> (r: Node)
        requires
            old(e).inv(),
            wf(*self),
        ensures
            clipped(*self, rect, r),
            misses(rect, half_width_spec(depth_of(*self))) ==> r == old(e).empties@[depth_of(*self) as int],
            covers(rect, half_width_spec(depth_of(*self))) ==> r == *self,
            final(e).inv(),
            wf(r),
            depth_of(r) == depth_of(*self),
            pop_of(*self) == 0 ==> pop_of(r) == 0,
    {
        proof {
            lemma_square_fits(*self);
        }
        let mut r0 = rect;
        r0.intersection(self.trivial_bounding_rect());
        proof {
            assert forall|x: int, y: int| #[trigger] alive(*self, x, y) implies (rect.contains(x, y) <==> r0.contains(x, y)) by {
                lemma_alive_in_square(*self, x, y);
            }
        }
        if r0.is_empty() {
            let r = Node::empty(e, self.depth());
            proof {
                assert forall|x: int, y: int| #[trigger] alive(r, x, y) == (alive(*self, x, y) && rect.contains(x, y)) by {
                    crate::semantics::lemma_empty_dead(r, x, y);
                }
            }
            r
        } else {
            self.clip_in_bounds(e, r0)
        }
    }

    /// This node with every cell inside `rect` cleared.
    pub fn clear(&self, e: &mut Engine, rect: Rect) -> (r: Node)
        requires
            old(e).inv(),
            wf(*self),
        ensures
            cleared(*self, rect, r),
            misses(rect, half_width_spec(depth_of(*self))) ==> r == *self,
            covers(rect, half_width_spec(depth_of(*self))) ==> r == old(e).empties@[depth_of(*self) as int],
            final(e).inv(),
            wf(r),
            depth_of(r) == depth_of(*self),
            pop_of(*self) == 0 ==> pop_of(r) == 0,
    {
        proof {
            lemma_square_fits(*self);
        }
        let mut r0 = rect;
        r0.intersection(self.trivial_bounding_rect());
        proof {
            assert forall|x: int, y: int| #[trigger] alive(*self, x, y) implies (rect.contains(x, y) <==> r0.contains(x, y)) by {
                lemma_alive_in_square(*self, x, y);
            }
        }
        if r0.is_empty() {
            let r = self.dup();
            proof {
                assert forall|x: int, y: int| #[trigger] alive(r, x, y) == (alive(*self, x, y) && !rect.contains(x, y)) by {
                    
                }
            }
            r
        } else {
            self.clear_in_bounds(e, r0)
        }
    }

    /// The rectangle of all cells of this node.
    pub fn trivial_bounding_rect(&self) -> (r: Rect)
        requires
            wf(*self),
        ensures
            r == square(half_width_spec(depth_of(*self))),
    {
        let h = self.half_width();
        Rect::symetric_min_max(-h, h - 1)
    }

    fn clip_in_bounds(&self, e: &mut Engine, rect: Rect) -> (r: Node)
        requires
            old(e).inv(),
            wf(*self),
            bounded(rect, half_width_spec(depth_of(*self))),
        ensures
            rect == square(half_width_spec(depth_of(*self))) ==> r == *self,
            final(e).empties == old(e).empties,
            clipped(*self, rect, r),
            misses(rect, half_width_spec(depth_of(*self))) ==> r == old(e).empties@[depth_of(*self) as int],
            covers(rect, half_width_spec(depth_of(*self))) ==> r == *self,
            final(e).inv(),
            wf(r),
            depth_of(r) == depth_of(*self),
            rect.empty_spec() ==> pop_of(r) == 0,
            pop_of(*self) == 0 ==> pop_of(r) == 0,
        decreases *self,
    {
        proof {
            lemma_square_fits(*self);
        }
        if rect.is_empty() {
            let r = Node::empty(e, self.depth());
            proof {
                assert forall|x: int, y: int| !#[trigger] alive(r, x, y) by {
                    crate::semantics::lemma_empty_dead(r, x, y);
                }
            }
            r
        } else if rect == self.trivial_bounding_rect() {
            proof {
                assert forall|x: int, y: int| #[trigger] alive(*self, x, y) implies rect.contains(x, y) by {
                    lemma_alive_in_square(*self, x, y);
                }
            }
            self.dup()
        } else {
            match &self.0.content {
                Content::Leaf(q) => {
                    proof {
                        vstd::arithmetic::power2::lemma2_to64();
                    }
                    let out = q.clip_in_bounds(rect);
                    let ghost sq = *q;
                    proof {
                        if pop_of(*self) == 0 {
                            crate::node::lemma_block_pop_zero(q.nw);
                            crate::node::lemma_block_pop_zero(q.ne);
                            crate::node::lemma_block_pop_zero(q.sw);
                            crate::node::lemma_block_pop_zero(q.se);
                            crate::node::lemma_count_zero(64);
                        }
                    }
                    let r = Node::new_leaf(e, out);
                    proof {
                        assert forall|x: int, y: int|
                            #[trigger] alive(r, x, y) == (alive(*self, x, y) && rect.contains(x, y)) by {
                            crate::semantics::lemma_alive_leaf(r, x, y);
                            crate::semantics::lemma_alive_leaf(*self, x, y);
                            assert(alive_blocks(out, x, y) == (alive_blocks(sq, x, y) && rect.contains(x, y)));
                        }
                    }
                    r
                },
                Content::Inner(d, q) => {
                    proof {
                        assert(children_ok(*q, (*d - 1) as nat));
                        lemma_half_child(*d as nat);
                    }
                    let amount = q.nw.half_width();
                    let nw = q.nw.clip_in_bounds(e, rect.nw_shifted(amount));
                    let ne = q.ne.clip_in_bounds(e, rect.ne_shifted(amount));
                    let sw = q.sw.clip_in_bounds(e, rect.sw_shifted(amount));
                    let se = q.se.clip_in_bounds(e, rect.se_shifted(amount));
                    let r = Node::new_depth_inner(e, *d, Quad { nw, ne, sw, se });
                    proof {
                        assert forall|x: int, y: int|
                            #[trigger] alive(r, x, y) == (alive(*self, x, y) && rect.contains(x, y)) by {
                            crate::semantics::lemma_alive_inner(r, x, y);
                            crate::semantics::lemma_alive_inner(*self, x, y);
                        }
                    }
                    r
                },
            }
        }
    }

    fn clear_in_bounds(&self, e: &mut Engine, rect: Rect) -> (r: Node)
        requires
            old(e).inv(),
            wf(*self),
            bounded(rect, half_width_spec(depth_of(*self))),
        ensures
            rect == square(half_width_spec(depth_of(*self))) ==> r == old(e).empties@[depth_of(*self) as int],
            final(e).empties == old(e).empties,
            cleared(*self, rect, r),
            misses(rect, half_width_spec(depth_of(*self))) ==> r == *self,
            covers(rect, half_width_spec(depth_of(*self))) ==> r == old(e).empties@[depth_of(*self) as int],
            final(e).inv(),
            wf(r),
            depth_of(r) == depth_of(*self),
            rect.empty_spec() ==> r == *self,
            pop_of(*self) == 0 ==> pop_of(r) == 0,
        decreases *self,
    {
        proof {
            lemma_square_fits(*self);
        }
        if rect.is_empty() {
            self.dup()
        } else if rect == self.trivial_bounding_rect() {
            let r = Node::empty(e, self.depth());
            proof {
                assert forall|x: int, y: int| !#[trigger] alive(r, x, y) by {
                    crate::semantics::lemma_empty_dead(r, x, y);
                }
                assert forall|x: int, y: int| #[trigger] alive(*self, x, y) implies rect.contains(x, y) by {
                    lemma_alive_in_square(*self, x, y);
                }
            }
            r
        } else {
            match &self.0.content {
                Content::Leaf(q) => {
                    proof {
                        vstd::arithmetic::power2::lemma2_to64();
                    }
                    let out = q.clear_in_bounds(rect);
                    let ghost sq = *q;
                    proof {
                        if pop_of(*self) == 0 {
                            crate::node::lemma_block_pop_zero(q.nw);
                            crate::node::lemma_block_pop_zero(q.ne);
                            crate::node::lemma_block_pop_zero(q.sw);
                            crate::node::lemma_block_pop_zero(q.se);
                            crate::node::lemma_count_zero(64);
                        }
                    }
                    let r = Node::new_leaf(e, out);
                    proof {
                        assert forall|x: int, y: int|
                            #[trigger] alive(r, x, y) == (alive(*self, x, y) && !rect.contains(x, y)) by {
                            crate::semantics::lemma_alive_leaf(r, x, y);
                            crate::semantics::lemma_alive_leaf(*self, x, y);
                            assert(alive_blocks(out, x, y) == (alive_blocks(sq, x, y) && !rect.contains(x, y)));
                        }
                    }
                    r
                },
                Content::Inner(d, q) => {
                    proof {
                        assert(children_ok(*q, (*d - 1) as nat));
                        lemma_half_child(*d as nat);
                    }
                    let amount = q.nw.half_width();
                    let nw = q.nw.clear_in_bounds(e, rect.nw_shifted(amount));
                    let ne = q.ne.clear_in_bounds(e, rect.ne_shifted(amount));
                    let sw = q.sw.clear_in_bounds(e, rect.sw_shifted(amount));
                    let se = q.se.clear_in_bounds(e, rect.se_shifted(amount));
                    let r = Node::new_depth_inner(e, *d, Quad { nw, ne, sw, se });
                    proof {
                        assert forall|x: int, y: int|
                            #[trigger] alive(r, x, y) == (alive(*self, x, y) && !rect.contains(x, y)) by {
                            crate::semantics::lemma_alive_inner(r, x, y);
                            crate::semantics::lemma_alive_inner(*self, x, y);
                        }
                    }
                    r
                },
            }
        }
    }
}

/// The half width of a well-formed node fits an `i64` with room to spare,
/// so its square is exact and non-empty.
pub proof fn lemma_square_fits(n: Node)
    requires
        wf(n),
    ensures
        8 <= half_width_spec(depth_of(n)) <= 0x4000_0000_0000_0000,
        square(half_width_spec(depth_of(n))).x.min == -half_width_spec(depth_of(n)),
        square(half_width_spec(depth_of(n))).x.max == half_width_spec(depth_of(n)) - 1,
        square(half_width_spec(depth_of(n))).y.min == -half_width_spec(depth_of(n)),
        square(half_width_spec(depth_of(n))).y.max == half_width_spec(depth_of(n)) - 1,
{
    vstd::arithmetic::power2::lemma2_to64();
    vstd::arithmetic::power2::lemma2_to64_rest();
    if depth_of(n) + 3 < 62 {
        vstd::arithmetic::power2::lemma_pow2_strictly_increases(depth_of(n) + 3, 62);
    }
    if depth_of(n) > 0 {
        vstd::arithmetic::power2::lemma_pow2_strictly_increases(3, depth_of(n) + 3);
    }
}

/// A live cell lies inside the node.
pub proof fn lemma_alive_in_square(n: Node, x: int, y: int)
    requires
        wf(n),
        alive(n, x, y),
    ensures
        in_square(half_width_spec(depth_of(n)), x, y),
        square(half_width_spec(depth_of(n))).contains(x, y),
{
    vstd::arithmetic::power2::lemma2_to64();
    vstd::arithmetic::power2::lemma2_to64_rest();
    if depth_of(n) + 3 < 62 {
        vstd::arithmetic::power2::lemma_pow2_strictly_increases(depth_of(n) + 3, 62);
    }
    vstd::arithmetic::power2::lemma_pow2_pos(depth_of(n) + 3);
}

/// The half width of a child is half that of its parent.
proof fn lemma_half_child(d: nat)
    requires
        1 <= d <= crate::node::MAX_DEPTH,
    ensures
        half_width_spec(d) == 2 * half_width_spec((d - 1) as nat),
        half_width_spec((d - 1) as nat) <= 0x2000_0000_0000_0000,
{
    vstd::arithmetic::power2::lemma_pow2_unfold(d + 3);
    vstd::arithmetic::power2::lemma2_to64_rest();
    if d + 2 < 61 {
        vstd::arithmetic::power2::lemma_pow2_strictly_increases(d + 2, 61);
    }
}

impl Quad<Block> {
    fn clip_in_bounds(&self, rect: Rect) -> (r: Quad<Block>)
        requires
            inside(rect, 8),
        ensures
            forall|x: int, y: int|
                #[trigger] alive_blocks(r, x, y) == (alive_blocks(*self, x, y) && rect.contains(x, y)),
            self.nw.bits == 0 ==> r.nw.bits == 0,
            self.ne.bits == 0 ==> r.ne.bits == 0,
            self.sw.bits == 0 ==> r.sw.bits == 0,
            self.se.bits == 0 ==> r.se.bits == 0,
    {
        let amount = BLOCK_HALF_WIDTH;
        let r = Quad {
            nw: self.nw.clip_in_bounds(rect.nw_shifted(amount)),
            ne: self.ne.clip_in_bounds(rect.ne_shifted(amount)),
            sw: self.sw.clip_in_bounds(rect.sw_shifted(amount)),
            se: self.se.clip_in_bounds(rect.se_shifted(amount)),
        };
        proof {
            assert forall|x: int, y: int|
                #[trigger] alive_blocks(r, x, y) == (alive_blocks(*self, x, y) && rect.contains(x, y)) by {
                if in_square(8, x, y) {
                    let q = quadrant_of(x, y);
                    assert(block_alive(r.at(q), re_center_spec(x, 4), re_center_spec(y, 4)) == (block_alive(
                        self.at(q),
                        re_center_spec(x, 4),
                        re_center_spec(y, 4),
                    ) && rect.contains(x, y)));
                }
            }
        }
        r
    }

    fn clear_in_bounds(&self, rect: Rect) -> (r: Quad<Block>)
        requires
            inside(rect, 8),
        ensures
            forall|x: int, y: int|
                #[trigger] alive_blocks(r, x, y) == (alive_blocks(*self, x, y) && !rect.contains(x, y)),
            self.nw.bits == 0 ==> r.nw.bits == 0,
            self.ne.bits == 0 ==> r.ne.bits == 0,
            self.sw.bits == 0 ==> r.sw.bits == 0,
            self.se.bits == 0 ==> r.se.bits == 0,
    {
        let amount = BLOCK_HALF_WIDTH;
        let r = Quad {
            nw: self.nw.clear_in_bounds(rect.nw_shifted(amount)),
            ne: self.ne.clear_in_bounds(rect.ne_shifted(amount)),
            sw: self.sw.clear_in_bounds(rect.sw_shifted(amount)),
            se: self.se.clear_in_bounds(rect.se_shifted(amount)),
        };
        proof {
            assert forall|x: int, y: int|
                #[trigger] alive_blocks(r, x, y) == (alive_blocks(*self, x, y) && !rect.contains(x, y)) by {
                if in_square(8, x, y) {
                    let q = quadrant_of(x, y);
                    assert(block_alive(r.at(q), re_center_spec(x, 4), re_center_spec(y, 4)) == (block_alive(
                        self.at(q),
                        re_center_spec(x, 4),
                        re_center_spec(y, 4),
                    ) && !rect.contains(x, y)));
                }
            }
        }
        r
    }
}

impl Block {
    /// The block with the cells outside `rect` (block coordinates) cleared.
    fn clip_in_bounds(self, rect: Rect) -> (r: Block)
        requires
            bounded(rect, 4),
        ensures
            rect.empty_spec() ==> r.bits == 0,
            self.bits == 0 ==> r.bits == 0,
            forall|x: int, y: int|
                #[trigger] block_alive(r, x, y) == (block_alive(self, x, y) && rect.contains(x, y)),
    {
        if rect.is_empty() {
            let r = Block::empty();
            proof {
                assert forall|x: int, y: int| !#[trigger] block_alive(r, x, y) by {
                    crate::semantics::lemma_zero_block_dead(r, x, y);
                }
            }
            r
        } else {
            let m = rect.to_block_rows();
            let b = self.bits;
            assert(b == 0 ==> b & m == 0) by (bit_vector);
            let r = Block::from_rows(b & m);
            proof {
                assert forall|x: int, y: int|
                    #[trigger] block_alive(r, x, y) == (block_alive(self, x, y) && rect.contains(x, y)) by {
                    if in_square(4, x, y) {
                        let k = cell_bit(x, y);
                        assert(k < 64 ==> (((b & m) >> k) & 1 == 1) == ((((b >> k) & 1) == 1) && (((m >> k) & 1) == 1))) by (bit_vector);
                    }
                }
            }
            r
        }
    }

    /// The block with the cells inside `rect` (block coordinates) cleared.
    fn clear_in_bounds(self, rect: Rect) -> (r: Block)
        requires
            bounded(rect, 4),
        ensures
            rect.empty_spec() ==> r == self,
            self.bits == 0 ==> r.bits == 0,
            forall|x: int, y: int|
                #[trigger] block_alive(r, x, y) == (block_alive(self, x, y) && !rect.contains(x, y)),
    {
        if rect.is_empty() {
            self
        } else {
            let m = rect.to_block_rows();
            let b = self.bits;
            assert(b == 0 ==> b & !m == 0) by (bit_vector);
            let r = Block::from_rows(b & !m);
            proof {
                assert forall|x: int, y: int|
                    #[trigger] block_alive(r, x, y) == (block_alive(self, x, y) && !rect.contains(x, y)) by {
                    if in_square(4, x, y) {
                        let k = cell_bit(x, y);
                        assert(k < 64 ==> (((b & !m) >> k) & 1 == 1) == ((((b >> k) & 1) == 1) && !(((m >> k) & 1) == 1))) by (bit_vector);
                    }
                }
            }
            r
        }
    }
}

impl Rect {
    /// The north-west quarter of the rectangle, moved by `amount` south-east
    /// into the frame of the north-west child.
    pub fn nw_shifted(&self, amount: i64) -> (r: Rect)
        requires
            0 < amount <= 0x2000_0000_0000_0000,
            inside(*self, 2 * amount),
        ensures
            bounded(r, amount as int),
            r.x.min == crate::rect::max_i(self.x.min as int, i64::MIN as int) + amount,
            r.x.max == crate::rect::min_i(self.x.max as int, -1) + amount,
            r.y.min == crate::rect::max_i(self.y.min as int, i64::MIN as int) + amount,
            r.y.max == crate::rect::min_i(self.y.max as int, -1) + amount,
    {
        let mut rect = *self;
        rect.intersection(Rect::min_max(Pos::new(i64::MIN, i64::MIN), Pos::new(-1, -1)));
        rect.offset(Pos::new(amount, amount));
        rect
    }

    /// The north-east quarter, moved into the frame of the north-east child.
    pub fn ne_shifted(&self, amount: i64) -> (r: Rect)
        requires
            0 < amount <= 0x2000_0000_0000_0000,
            inside(*self, 2 * amount),
        ensures
            bounded(r, amount as int),
            r.x.min == crate::rect::max_i(self.x.min as int, 0) - amount,
            r.x.max == crate::rect::min_i(self.x.max as int, i64::MAX as int) - amount,
            r.y.min == crate::rect::max_i(self.y.min as int, i64::MIN as int) + amount,
            r.y.max == crate::rect::min_i(self.y.max as int, -1) + amount,
    {
        let mut rect = *self;
        rect.intersection(Rect::min_max(Pos::new(0, i64::MIN), Pos::new(i64::MAX, -1)));
        rect.offset(Pos::new(-amount, amount));
        rect
    }

    /// The south-west quarter, moved into the frame of the south-west child.
    pub fn sw_shifted(&self, amount: i64) -> (r: Rect)
        requires
            0 < amount <= 0x2000_0000_0000_0000,
            inside(*self, 2 * amount),
        ensures
            bounded(r, amount as int),
            r.x.min == crate::rect::max_i(self.x.min as int, i64::MIN as int) + amount,
            r.x.max == crate::rect::min_i(self.x.max as int, -1) + amount,
            r.y.min == crate::rect::max_i(self.y.min as int, 0) - amount,
            r.y.max == crate::rect::min_i(self.y.max as int, i64::MAX as int) - amount,
    {
        let mut rect = *self;
        rect.intersection(Rect::min_max(Pos::new(i64::MIN, 0), Pos::new(-1, i64::MAX)));
        rect.offset(Pos::new(amount, -amount));
        rect
    }

    /// The south-east quarter, moved into the frame of the south-east child.
    pub fn se_shifted(&self, amount: i64) -> (r: Rect)
        requires
            0 < amount <= 0x2000_0000_0000_0000,
            inside(*self, 2 * amount),
        ensures
            bounded(r, amount as int),
            r.x.min == crate::rect::max_i(self.x.min as int, 0) - amount,
            r.x.max == crate::rect::min_i(self.x.max as int, i64::MAX as int) - amount,
            r.y.min == crate::rect::max_i(self.y.min as int, 0) - amount,
            r.y.max == crate::rect::min_i(self.y.max as int, i64::MAX as int) - amount,
    {
        let mut rect = *self;
        rect.intersection(Rect::min_max(Pos::new(0, 0), Pos::new(i64::MAX, i64::MAX)));
        rect.offset(Pos::new(-amount, -amount));
        rect
    }

    /// The cells of a non-empty rectangle in block coordinates (`-4..=3` on
    /// both axes) as a block mask: a run of columns from west to east in
    /// every row, and a run of rows from north to south.
    pub fn to_block_rows(self) -> (r: u64)
        requires
            inside(self, 4),
        ensures
            forall|x: int, y: int|
                in_square(4, x, y) ==> (((r >> cell_bit(x, y)) & 1 == 1) <==> #[trigger] self.contains(
                    x,
                    y,
                )),
    {
        let w = (3 - self.x.min) as u64;
        let ea = (3 - self.x.max) as u64;
        proof {
            lemma_pow2_fits(w as nat);
            lemma_pow2_fits(ea as nat);
            if ea < w {
                vstd::arithmetic::power2::lemma_pow2_strictly_increases(ea as nat, w as nat);
            }
        }
        let row_mask_high: u64 = 1u64 << w;
        let row_mask_low: u64 = 1u64 << ea;
        let row_mask: u64 = row_mask_high | (row_mask_high - row_mask_low);
        let row_mask = row_mask | (row_mask << 8u64) | (row_mask << 16u64) | (row_mask << 24u64) | (
        row_mask << 32u64) | (row_mask << 40u64) | (row_mask << 48u64) | (row_mask << 56u64);
        let hi = (31 - self.y.min * 8) as u64;
        let lo = (24 - self.y.max * 8) as u64;
        proof {
            lemma_pow2_fits(hi as nat);
            lemma_pow2_fits(lo as nat);
            if lo < hi {
                vstd::arithmetic::power2::lemma_pow2_strictly_increases(lo as nat, hi as nat);
            }
        }
        let col_mask_high: u64 = 1u64 << hi;
        let col_mask_low: u64 = 1u64 << lo;
        let col_mask = col_mask_high | (col_mask_high - col_mask_low);
        let r = row_mask & col_mask;
        proof {
            assert forall|x: int, y: int|
                in_square(4, x, y) implies (((r >> cell_bit(x, y)) & 1 == 1) <==> #[trigger] self.contains(
                    x,
                    y,
                )) by {
                let k = cell_bit(x, y);
                let m = (3 - y) as u64;
                let j = (3 - x) as u64;
                assert(k == 8 * m + j);
                assert(m < 8 && j < 8 ==> (vstd::prelude::add(vstd::prelude::mul(8u64, m), j)) & 7 == j) by (bit_vector);
                lemma_block_mask(w, ea, hi, lo, k);
            }
        }
        r
    }
}

} // verus!
