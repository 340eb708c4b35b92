//! Translating a universe by a whole number of cells.
use vstd::prelude::*;

use crate::block::Block;
use crate::node::{
    children_ok, depth_of, half_width_spec, lemma_pow2_fits, wf, Content, Engine, Node, MAX_DEPTH,
};
use crate::pos::Pos;
use crate::quad::{quadrant_of, Quad};
use crate::step::refs_ok;
use crate::pos::re_center_spec;
use crate::node::{block_alive, in_square};
use crate::semantics::{shifted, alive_blocks, alive_in, lemma_alive_inner, lemma_alive_leaf, lemma_empty_dead};
use crate::node::pop_of;
use crate::center::kids;
use crate::node::alive;
use vstd::arithmetic::power2::pow2;

verus! {


/// Shifts two blocks side by side `amount` (`0..8`) cells east and keeps
/// the eastern block.
pub fn offset_h(w: u64, e: u64, amount: u64) -> (r: u64)
    requires
        amount < 8,
    ensures
        amount == 0 ==> r == e,
        forall|k: u64|
            k < 64 ==> #[trigger] ((r >> k) & 1) == if (k & 7) + amount <= 7 {
                (e >> vstd::prelude::add(k, amount)) & 1
            } else {
                (w >> vstd::prelude::sub(vstd::prelude::add(k, amount), 8u64)) & 1
            },
{
    if amount == 0 {
        assert(forall|k: u64| #[trigger] (k & 7) <= 7) by (bit_vector);
        return e;
    }
    let w_mask: u64 = if amount == 0 {
        return e;
    } else if amount == 1 {
        0x01_01_01_01_01_01_01_01
    } else if amount == 2 {
        0x03_03_03_03_03_03_03_03
    } else if amount == 3 {
        0x07_07_07_07_07_07_07_07
    } else if amount == 4 {
        0x0f_0f_0f_0f_0f_0f_0f_0f
    } else if amount == 5 {
        0x1f_1f_1f_1f_1f_1f_1f_1f
    } else if amount == 6 {
        0x3f_3f_3f_3f_3f_3f_3f_3f
    } else {
        0x7f_7f_7f_7f_7f_7f_7f_7f
    };
    let a = amount;
    assert(1 <= a < 8 ==> w_mask == vstd::prelude::mul(0x01_01_01_01_01_01_01_01u64, vstd::prelude::sub(1u64 << a, 1u64))) by (bit_vector)
        requires
            a == 1 ==> w_mask == 0x01_01_01_01_01_01_01_01,
            a == 2 ==> w_mask == 0x03_03_03_03_03_03_03_03,
            a == 3 ==> w_mask == 0x07_07_07_07_07_07_07_07,
            a == 4 ==> w_mask == 0x0f_0f_0f_0f_0f_0f_0f_0f,
            a == 5 ==> w_mask == 0x1f_1f_1f_1f_1f_1f_1f_1f,
            a == 6 ==> w_mask == 0x3f_3f_3f_3f_3f_3f_3f_3f,
            a == 7 ==> w_mask == 0x7f_7f_7f_7f_7f_7f_7f_7f,
    ;
    let r = ((w & w_mask) << (8 - amount)) | ((e & !w_mask) >> amount);
    assert(forall|k: u64|
        k < 64 && 1 <= a < 8 && w_mask == vstd::prelude::mul(0x01_01_01_01_01_01_01_01u64, vstd::prelude::sub(1u64 << a, 1u64)) ==> ((((w & w_mask) << vstd::prelude::sub(8u64, a)) | ((e & !w_mask) >> a)) >> k) & 1 == if (k & 7) + a <= 7 {
            (e >> vstd::prelude::add(k, a)) & 1
        } else {
            (w >> vstd::prelude::sub(vstd::prelude::add(k, a), 8u64)) & 1
        }) by (bit_vector);
    r
}

/// Shifts two blocks one above the other `amount` (`0..8`) cells south and
/// keeps the southern block.
pub fn offset_v(n: u64, s: u64, amount: u64) -> (r: u64)
    requires
        amount < 8,
    ensures
        amount == 0 ==> r == s,
        forall|k: u64|
            k < 64 ==> #[trigger] ((r >> k) & 1) == if k + 8 * amount < 64 {
                (s >> vstd::prelude::add(k, vstd::prelude::mul(8u64, amount))) & 1
            } else {
                (n >> vstd::prelude::sub(vstd::prelude::add(k, vstd::prelude::mul(8u64, amount)), 64u64)) & 1
            },
{
    let a = amount;
    if amount == 0 {
        return s;
    }
    let r = (n << (64 - amount * 8)) | (s >> (amount * 8));
    assert(forall|k: u64|
        k < 64 && 1 <= a < 8 ==> #[trigger] ((((n << vstd::prelude::sub(64u64, vstd::prelude::mul(a, 8u64))) | (s >> vstd::prelude::mul(a, 8u64))) >> k) & 1) == if vstd::prelude::add(k, vstd::prelude::mul(8u64, a)) < 64 {
            (s >> vstd::prelude::add(k, vstd::prelude::mul(8u64, a))) & 1
        } else {
            (n >> vstd::prelude::sub(vstd::prelude::add(k, vstd::prelude::mul(8u64, a)), 64u64)) & 1
        }) by (bit_vector);
    r
}

impl Quad<Block> {
    /// The south-east block of these four after shifting them `x` cells east
    /// and `y` cells south (both `0..8`).
    pub fn offset_shrink_se(self, x: u64, y: u64) -> (r: Block)
        requires
            x < 8,
            y < 8,
        ensures
            x == 0 && y == 0 ==> r == self.se,
            forall|bx: int, by: int|
                in_square(4, bx, by) ==> #[trigger] block_alive(r, bx, by) == alive_blocks(
                    self,
                    bx + 4 - x,
                    by + 4 - y,
                ),
    {
        let wv = offset_v(self.nw.bits, self.sw.bits, y);
        let ev = offset_v(self.ne.bits, self.se.bits, y);
        let r = Block::from_rows(offset_h(wv, ev, x));
        proof {
            assert forall|bx: int, by: int|
                in_square(4, bx, by) implies #[trigger] block_alive(r, bx, by) == alive_blocks(
                    self,
                    bx + 4 - x,
                    by + 4 - y,
                ) by {
                let m = (3 - by) as u64;
                let j = (3 - bx) as u64;
                let k = (27 - 8 * by - bx) as u64;
                assert(k == 8 * m + j);
                assert(m < 8 && j < 8 ==> vstd::prelude::add(vstd::prelude::mul(8u64, m), j) & 7 == j) by (bit_vector);
                assert((k & 7) == j);
                assert(((r.bits >> k) & 1) == if (k & 7) + x <= 7 {
                    (ev >> vstd::prelude::add(k, x)) & 1
                } else {
                    (wv >> vstd::prelude::sub(vstd::prelude::add(k, x), 8u64)) & 1
                });
                if j + x <= 7 {
                    let k2 = (k + x) as u64;
                    assert(((ev >> k2) & 1) == if k2 + 8 * y < 64 {
                        (self.se.bits >> vstd::prelude::add(k2, vstd::prelude::mul(8u64, y))) & 1
                    } else {
                        (self.ne.bits >> vstd::prelude::sub(vstd::prelude::add(k2, vstd::prelude::mul(8u64, y)), 64u64)) & 1
                    });
                } else {
                    let k2 = (k + x - 8) as u64;
                    assert(((wv >> k2) & 1) == if k2 + 8 * y < 64 {
                        (self.sw.bits >> vstd::prelude::add(k2, vstd::prelude::mul(8u64, y))) & 1
                    } else {
                        (self.nw.bits >> vstd::prelude::sub(vstd::prelude::add(k2, vstd::prelude::mul(8u64, y)), 64u64)) & 1
                    });
                }
            }
        }
        r
    }
}

/// The 2x2 window at column `xi`, row `yi` of a 4x4 grid of blocks.
fn block_window(g: &[[Block; 4]; 4], xi: usize, yi: usize) -> (r: Quad<Block>)
    requires
        xi < 3,
        yi < 3,
    ensures
        r.nw == g@[yi as int]@[xi as int],
        r.ne == g@[yi as int]@[xi + 1],
        r.sw == g@[yi + 1]@[xi as int],
        r.se == g@[yi + 1]@[xi + 1],
{
    Quad { nw: g[yi][xi], ne: g[yi][xi + 1], sw: g[yi + 1][xi], se: g[yi + 1][xi + 1] }
}

/// The 2x2 window at column `xi`, row `yi` of a 4x4 grid of nodes.
fn node_window<'a>(g: &[[&'a Node; 4]; 4], xi: usize, yi: usize) -> (r: Quad<&'a Node>)
    requires
        xi < 3,
        yi < 3,
    ensures
        r.nw == g@[yi as int]@[xi as int],
        r.ne == g@[yi as int]@[xi + 1],
        r.sw == g@[yi + 1]@[xi as int],
        r.se == g@[yi + 1]@[xi + 1],
{
    Quad { nw: g[yi][xi], ne: g[yi][xi + 1], sw: g[yi + 1][xi], se: g[yi + 1][xi + 1] }
}

/// The four blocks of the middle of four leaves shifted `x` cells east and
/// `y` cells south (both `0..16`).
fn leaves_offset_shrink_se(a: &Quad<Block>, b: &Quad<Block>, c: &Quad<Block>, d: &Quad<Block>, x: u64, y: u64) -> (r: Quad<Block>)
    requires
        x < 16,
        y < 16,
    ensures
        forall|u: int, v: int|
            in_square(8, u, v) ==> #[trigger] alive_blocks(r, u, v) == alive4b(*a, *b, *c, *d, u + 8 - x, v + 8 - y),
{
    let xc = x & 7;
    let yc = y & 7;

    let g: [[Block; 4]; 4] = [
        [a.nw, a.ne, b.nw, b.ne],
        [a.sw, a.se, b.sw, b.se],
        [c.nw, c.ne, d.nw, d.ne],
        [c.sw, c.se, d.sw, d.se],
    ];
    let x0 = ((!x >> 3u64) & 1) as usize;
    let y0 = ((!y >> 3u64) & 1) as usize;
    assert(x & 7 < 8 && y & 7 < 8 && (!x >> 3u64) & 1 <= 1 && (!y >> 3u64) & 1 <= 1 && (x < 16 ==> x
        == vstd::prelude::add(x & 7, vstd::prelude::mul(vstd::prelude::sub(1u64, (!x >> 3u64) & 1), 8u64)))
        && (y < 16 ==> y == vstd::prelude::add(y & 7, vstd::prelude::mul(vstd::prelude::sub(1u64, (!y >> 3u64) & 1), 8u64)))) by (bit_vector);
    proof {
        assert forall|i: int, j: int| 0 <= i < 4 && 0 <= j < 4 implies g@[i]@[j] == bgrid(*a, *b, *c, *d, i, j) by {}
    }
    let w_nw = block_window(&g, x0, y0);
    let w_ne = block_window(&g, x0 + 1, y0);
    let w_sw = block_window(&g, x0, y0 + 1);
    let w_se = block_window(&g, x0 + 1, y0 + 1);
    let r = Quad {
        nw: w_nw.offset_shrink_se(xc, yc),
        ne: w_ne.offset_shrink_se(xc, yc),
        sw: w_sw.offset_shrink_se(xc, yc),
        se: w_se.offset_shrink_se(xc, yc),
    };
    proof {
        assert forall|u: int, v: int|
            in_square(8, u, v) implies #[trigger] alive_blocks(r, u, v) == alive4b(*a, *b, *c, *d, u + 8 - x, v + 8 - y) by {
            let qd = quadrant_of(u, v);
            let bx = re_center_spec(u, 4);
            let by = re_center_spec(v, 4);
            let xi: int = if u < 0 { x0 as int } else { x0 + 1 };
            let yi: int = if v < 0 { y0 as int } else { y0 + 1 };
            lemma_block_window(*a, *b, *c, *d, xi, yi, bx + 4 - xc, by + 4 - yc);
        }
    }
    r
}

/// The south-east node of the four shifted `x` cells east and `y` cells
/// south, one level down.
#[verifier::rlimit(80)]
fn offset_shrink_se(e: &mut Engine, t: Quad<&Node>, x: u64, y: u64) -> (r: Node)
    requires
        old(e).inv(),
        refs_ok(t, depth_of(*t.nw)),
        depth_of(*t.nw) < MAX_DEPTH,
        x < 2 * half_width_spec(depth_of(*t.nw)),
        y < 2 * half_width_spec(depth_of(*t.nw)),
    ensures
        final(e).inv(),
        wf(r),
        depth_of(r) == depth_of(*t.nw),
        forall|u: int, v: int|
            in_square(half_width_spec(depth_of(*t.nw)), u, v) ==> #[trigger] alive(r, u, v) == alive_refs(
                t,
                2 * half_width_spec(depth_of(*t.nw)),
                u + half_width_spec(depth_of(*t.nw)) - x,
                v + half_width_spec(depth_of(*t.nw)) - y,
            ),
    decreases depth_of(*t.nw),
{
    let cd = t.nw.depth();
    let ghost h = half_width_spec(cd as nat);
    proof {
        assert(wf(*t.nw) && wf(*t.ne) && wf(*t.sw) && wf(*t.se));
        vstd::arithmetic::power2::lemma_pow2_pos(cd as nat + 3);
        assert(2 * h / 2 == h);
    }
    if x == 0 && y == 0 {
        return t.se.dup();
    }
    match (&t.nw.0.content, &t.ne.0.content, &t.sw.0.content, &t.se.0.content) {
        (Content::Leaf(a), Content::Leaf(b), Content::Leaf(c), Content::Leaf(d)) => {
            proof {
                vstd::arithmetic::power2::lemma2_to64();
            }
            let q = leaves_offset_shrink_se(a, b, c, d, x, y);
            let r = Node::new_leaf(e, q);
            proof {
                assert forall|u: int, v: int|
                    in_square(half_width_spec(depth_of(*t.nw)), u, v) implies #[trigger] alive(r, u, v) == alive_refs(
                        t,
                        2 * half_width_spec(depth_of(*t.nw)),
                        u + half_width_spec(depth_of(*t.nw)) - x,
                        v + half_width_spec(depth_of(*t.nw)) - y,
                    ) by {
                    lemma_alive_leaf(r, u, v);
                    let xx = u + 8 - x;
                    let yy = v + 8 - y;
                    lemma_alive_leaf(*t.nw, re_center_spec(xx, 8), re_center_spec(yy, 8));
                    lemma_alive_leaf(*t.ne, re_center_spec(xx, 8), re_center_spec(yy, 8));
                    lemma_alive_leaf(*t.sw, re_center_spec(xx, 8), re_center_spec(yy, 8));
                    lemma_alive_leaf(*t.se, re_center_spec(xx, 8), re_center_spec(yy, 8));
                }
            }
            r
        },
        (Content::Inner(_, a), Content::Inner(_, b), Content::Inner(_, c), Content::Inner(_, d)) => {
            proof {
                assert(children_ok(*a, (cd - 1) as nat));
                assert(children_ok(*b, (cd - 1) as nat));
                assert(children_ok(*c, (cd - 1) as nat));
                assert(children_ok(*d, (cd - 1) as nat));
            }
            let bit = a.nw.width_log2() as u64;
            proof {
                lemma_pow2_fits(bit as nat);
                vstd::arithmetic::power2::lemma_pow2_pos(bit as nat);
            }
            let mask: u64 = (1u64 << bit) - 1;
            let xc = x & mask;
            let yc = y & mask;
            let g: [[&Node; 4]; 4] = [
                [&a.nw, &a.ne, &b.nw, &b.ne],
                [&a.sw, &a.se, &b.sw, &b.se],
                [&c.nw, &c.ne, &d.nw, &d.ne],
                [&c.sw, &c.se, &d.sw, &d.se],
            ];
            let x0 = ((!x >> bit) & 1) as usize;
            let y0 = ((!y >> bit) & 1) as usize;
            let gd = cd - 1;
            let ghost hh = 1u64 << bit;
            proof {
                assert forall|i: int, j: int| 0 <= i < 4 && 0 <= j < 4 implies wf(*g@[i]@[j]) && depth_of(*g@[i]@[j]) == gd by {}
                assert forall|i: int, j: int| 0 <= i < 4 && 0 <= j < 4 implies *g@[i]@[j] == ngrid(t, i, j) by {}
                vstd::arithmetic::power2::lemma_pow2_unfold(cd as nat + 3);
                assert(half_width_spec(gd as nat) * 2 == h);
                assert((1u64 << bit) == pow2(bit as nat));
                assert(pow2(bit as nat) == h);
                assert(bit < 62);
                vstd::bits::lemma_u64_shr_is_div(x, bit);
                vstd::bits::lemma_u64_shr_is_div(y, bit);
                assert((x as int) / h <= 1) by (nonlinear_arith)
                    requires
                        x < 2 * h,
                        h > 0,
                ;
                assert((y as int) / h <= 1) by (nonlinear_arith)
                    requires
                        y < 2 * h,
                        h > 0,
                ;
                assert(x >> bit <= 1 && y >> bit <= 1);
                assert(bit < 62 && hh == 1u64 << bit && x >> bit <= 1 && y >> bit <= 1 ==> ((((!x >> bit) & 1
                    == 1) ==> (x < hh && (x & vstd::prelude::sub(hh, 1u64)) == x)) && (((!x >> bit) & 1 == 0)
                    ==> (x >= hh && (x & vstd::prelude::sub(hh, 1u64)) == vstd::prelude::sub(x, hh))) && (((!y
                    >> bit) & 1 == 1) ==> (y < hh && (y & vstd::prelude::sub(hh, 1u64)) == y)) && (((!y >> bit)
                    & 1 == 0) ==> (y >= hh && (y & vstd::prelude::sub(hh, 1u64)) == vstd::prelude::sub(y, hh)))
                    && (x & vstd::prelude::sub(hh, 1u64)) < hh && (y & vstd::prelude::sub(hh, 1u64)) < hh && (!x
                    >> bit) & 1 <= 1 && (!y >> bit) & 1 <= 1)) by (bit_vector);
            }
            let w_nw = node_window(&g, x0, y0);
            let w_ne = node_window(&g, x0 + 1, y0);
            let w_sw = node_window(&g, x0, y0 + 1);
            let w_se = node_window(&g, x0 + 1, y0 + 1);
            let nw = offset_shrink_se(e, w_nw, xc, yc);
            let ne = offset_shrink_se(e, w_ne, xc, yc);
            let sw = offset_shrink_se(e, w_sw, xc, yc);
            let se = offset_shrink_se(e, w_se, xc, yc);
            let r = Node::new_depth_inner(e, cd, Quad { nw, ne, sw, se });
            proof {
                assert forall|u: int, v: int|
                    in_square(half_width_spec(depth_of(*t.nw)), u, v) implies #[trigger] alive(r, u, v) == alive_refs(
                        t,
                        2 * half_width_spec(depth_of(*t.nw)),
                        u + half_width_spec(depth_of(*t.nw)) - x,
                        v + half_width_spec(depth_of(*t.nw)) - y,
                    ) by {
                    lemma_alive_inner(r, u, v);
                    let xi: int = if u < 0 { x0 as int } else { x0 + 1 };
                    let yi: int = if v < 0 { y0 as int } else { y0 + 1 };
                    let uu = re_center_spec(u, h / 2);
                    let vv = re_center_spec(v, h / 2);
                    lemma_node_window(t, xi, yi, uu + h / 2 - xc, vv + h / 2 - yc);
                    lemma_mul_small(xi, h);
                    lemma_mul_small(yi, h);
                    assert(xc == x & mask);
                    assert(mask == vstd::prelude::sub(hh, 1u64));
                    assert(x0 == 1 ==> xc == x);
                    assert(x0 == 0 ==> xc == x - h);
                    assert(y0 == 1 ==> yc == y);
                    assert(y0 == 0 ==> yc == y - h);
                    assert(uu + h / 2 - xc + (xi - 1) * h == u + h - x);
                    assert(vv + h / 2 - yc + (yi - 1) * h == v + h - y);
                    let child = Quad { nw, ne, sw, se }.at(quadrant_of(u, v));
                    assert(alive(r, u, v) == alive(child, uu, vv));
                    assert(in_square(h / 2, uu, vv));
                }
            }
            r
        },
        _ => {
            proof {
                assert(false);
            }
            t.se.dup()
        },
    }
}

impl Node {
    /// The universe shifted `amount` cells (east and south for positive
    /// coordinates): this node itself for no move, else a node one level
    /// up from the smallest depth, at least this one's, whose half width
    /// covers `amount`.
    #[verifier::rlimit(80)]
    pub fn offset(&self, e: &mut Engine, amount: Pos) -> (r: Node)
        requires
            old(e).inv(),
            wf(*self),
            depth_of(*self) < MAX_DEPTH,
            -half_width_spec((MAX_DEPTH - 1) as nat) <= amount.x <= half_width_spec((MAX_DEPTH - 1) as nat),
            -half_width_spec((MAX_DEPTH - 1) as nat) <= amount.y <= half_width_spec((MAX_DEPTH - 1) as nat),
        ensures
            final(e).inv(),
            wf(r),
            amount.x == 0 && amount.y == 0 ==> r == *self,
            !(amount.x == 0 && amount.y == 0) ==> depth_of(r) == fit_depth(depth_of(*self), amount) + 1,
            shifted(*self, amount, r),
    {
        if amount.x == 0 && amount.y == 0 {
            return self.dup();
        }
        let mut n = self.dup();
        while n.depth() < MAX_DEPTH - 1 && n.beyond(amount)
            invariant
                e.inv(),
                wf(n),
                depth_of(n) >= depth_of(*self),
                fit_depth(depth_of(n), amount) == fit_depth(depth_of(*self), amount),
                depth_of(n) < MAX_DEPTH,
                forall|x: int, y: int| #[trigger] alive(n, x, y) == alive(*self, x, y),
            decreases MAX_DEPTH - depth_of(n),
        {
            n = n.expand(e);
        }
        proof {
            if depth_of(n) < MAX_DEPTH - 1 {
            } else {
                assert(depth_of(n) == MAX_DEPTH - 1);
            }
        }
        let width = n.width();
        let half = n.half_width();
        let (x0, xc): (usize, u64) = if amount.x < 0 {
            (1, (width as i128 + amount.x as i128) as u64)
        } else {
            (0, amount.x as u64)
        };
        let (y0, yc): (usize, u64) = if amount.y < 0 {
            (1, (width as i128 + amount.y as i128) as u64)
        } else {
            (0, amount.y as u64)
        };
        let d = n.depth();
        let empty = Node::empty(e, d);
        let quad = n.expand_quad(e);
        let g: [[&Node; 4]; 4] = [
            [&empty, &empty, &empty, &empty],
            [&empty, &quad.nw, &quad.ne, &empty],
            [&empty, &quad.sw, &quad.se, &empty],
            [&empty, &empty, &empty, &empty],
        ];
        proof {
            assert forall|i: int, j: int| 0 <= i < 4 && 0 <= j < 4 implies wf(*g@[i]@[j]) && depth_of(*g@[i]@[j]) == d by {}
            assert forall|i: int, j: int| 0 <= i < 4 && 0 <= j < 4 implies *g@[i]@[j] == egrid(quad, empty, i, j) by {}
        }
        let ghost hh = half_width_spec(d as nat);
        let w_nw = node_window(&g, x0, y0);
        let w_ne = node_window(&g, x0 + 1, y0);
        let w_sw = node_window(&g, x0, y0 + 1);
        let w_se = node_window(&g, x0 + 1, y0 + 1);
        let nw = offset_shrink_se(e, w_nw, xc, yc);
        let ne = offset_shrink_se(e, w_ne, xc, yc);
        let sw = offset_shrink_se(e, w_sw, xc, yc);
        let se = offset_shrink_se(e, w_se, xc, yc);
        let r = Node::new_inner(e, Quad { nw, ne, sw, se });
        proof {
            vstd::arithmetic::power2::lemma_pow2_unfold(d as nat + 4);
            vstd::arithmetic::power2::lemma_pow2_pos(d as nat + 3);
            assert(half_width_spec(d as nat + 1) == 2 * hh);
            assert forall|x: int, y: int| #[trigger] alive(r, x, y) == alive(*self, x - amount.x, y - amount.y) by {
                lemma_alive_inner(r, x, y);
                if alive(n, x - amount.x, y - amount.y) {
                    crate::clip::lemma_alive_in_square(n, x - amount.x, y - amount.y);
                }
                if in_square(2 * hh, x, y) {
                    let xi: int = if x < 0 { x0 as int } else { x0 + 1 };
                    let yi: int = if y < 0 { y0 as int } else { y0 + 1 };
                    let uu = re_center_spec(x, hh);
                    let vv = re_center_spec(y, hh);
                    lemma_mul_small(xi, 2 * hh);
                    lemma_mul_small(yi, 2 * hh);
                    lemma_edge_window(quad, empty, xi, yi, uu + hh - xc, vv + hh - yc);
                    assert(uu + hh - xc + (xi - 1) * (2 * hh) == x - amount.x);
                    assert(vv + hh - yc + (yi - 1) * (2 * hh) == y - amount.y);
                }
            }
        }
        r
    }

    /// Whether a shift by `amount` reaches beyond the half width.
    ///
    /// (See [`fit_depth`] for the depth that `offset` grows to.)
    pub fn beyond(&self, amount: Pos) -> (r: bool)
        requires
            wf(*self),
        ensures
            r == !(-half_width_spec(depth_of(*self)) <= amount.x <= half_width_spec(depth_of(*self))
                && -half_width_spec(depth_of(*self)) <= amount.y <= half_width_spec(depth_of(*self))),
    {
        let h = self.half_width();
        amount.x < -h || amount.x > h || amount.y < -h || amount.y > h
    }
}

} // verus!

verus! {

/// Cell `(x, y)` of the square of half width `h` made of four referenced
/// nodes.
pub open spec fn alive_refs(t: Quad<&Node>, h: int, x: int, y: int) -> bool {
    alive_in(Quad { nw: *t.nw, ne: *t.ne, sw: *t.sw, se: *t.se }, h, x, y)
}

/// Node `(row, col)` of the 4x4 grid of the children of four nodes.
pub open spec fn ngrid(t: Quad<&Node>, row: int, col: int) -> Node {
    let q = if row < 2 {
        if col < 2 {
            kids(*t.nw)
        } else {
            kids(*t.ne)
        }
    } else {
        if col < 2 {
            kids(*t.sw)
        } else {
            kids(*t.se)
        }
    };
    if row % 2 == 0 {
        if col % 2 == 0 {
            q.nw
        } else {
            q.ne
        }
    } else {
        if col % 2 == 0 {
            q.sw
        } else {
            q.se
        }
    }
}

/// The 2x2 window of grandchildren at column `xi`, row `yi` shows the
/// square of the four nodes shifted by a whole child width per step.
pub proof fn lemma_node_window(t: Quad<&Node>, xi: int, yi: int, p: int, q: int)
    requires
        refs_ok(t, depth_of(*t.nw)),
        depth_of(*t.nw) >= 1,
        0 <= xi < 3,
        0 <= yi < 3,
        in_square(half_width_spec(depth_of(*t.nw)), p, q),
    ensures
        alive_in(
            Quad {
                nw: ngrid(t, yi, xi),
                ne: ngrid(t, yi, xi + 1),
                sw: ngrid(t, yi + 1, xi),
                se: ngrid(t, yi + 1, xi + 1),
            },
            half_width_spec(depth_of(*t.nw)),
            p,
            q,
        ) == alive_refs(
            t,
            2 * half_width_spec(depth_of(*t.nw)),
            p + (xi - 1) * half_width_spec(depth_of(*t.nw)),
            q + (yi - 1) * half_width_spec(depth_of(*t.nw)),
        ),
{
    let c = depth_of(*t.nw);
    let h = half_width_spec(c);
    lemma_mul_small(xi, h);
    lemma_mul_small(yi, h);
    assert(wf(*t.nw) && wf(*t.ne) && wf(*t.sw) && wf(*t.se));
    vstd::arithmetic::power2::lemma_pow2_unfold(c + 3);
    vstd::arithmetic::power2::lemma_pow2_pos(c + 2);
    assert(h == 2 * half_width_spec((c - 1) as nat));
    assert(2 * h / 2 == h);
    let xx = p + (xi - 1) * h;
    let yy = q + (yi - 1) * h;
    let x1 = re_center_spec(xx, h);
    let y1 = re_center_spec(yy, h);
    lemma_alive_inner(*t.nw, x1, y1);
    lemma_alive_inner(*t.ne, x1, y1);
    lemma_alive_inner(*t.sw, x1, y1);
    lemma_alive_inner(*t.se, x1, y1);
}

/// `(i - 1) * h` for `i` in `0..3`.
pub proof fn lemma_mul_small(i: int, h: int)
    requires
        0 <= i < 3,
    ensures
        (i - 1) * h == if i == 0 {
            -h
        } else if i == 1 {
            0
        } else {
            h
        },
{
    if i == 0 {
        assert((0 - 1) * h == -h) by (nonlinear_arith);
    } else if i == 1 {
        assert((1 - 1) * h == 0) by (nonlinear_arith);
    } else {
        assert((2 - 1) * h == h) by (nonlinear_arith);
    }
}

/// The smallest depth from `d` up (capped one below `MAX_DEPTH`) whose
/// half width covers both coordinates of `a`.
pub open spec fn fit_depth(d: nat, a: Pos) -> nat
    decreases MAX_DEPTH - d,
{
    if d + 1 >= MAX_DEPTH || (-half_width_spec(d) <= a.x <= half_width_spec(d) && -half_width_spec(d)
        <= a.y <= half_width_spec(d)) {
        d
    } else {
        fit_depth(d + 1, a)
    }
}

/// Node `(row, col)` of a 4x4 grid holding `q` in its middle 2x2 and `z`
/// around it.
pub open spec fn egrid(q: Quad<Node>, z: Node, row: int, col: int) -> Node {
    if 1 <= row <= 2 && 1 <= col <= 2 {
        if row == 1 {
            if col == 1 {
                q.nw
            } else {
                q.ne
            }
        } else {
            if col == 1 {
                q.sw
            } else {
                q.se
            }
        }
    } else {
        z
    }
}

/// With no live cell in the border, the 2x2 window at column `xi`, row `yi`
/// of the bordered grid shows the middle square shifted by a whole tile
/// width per step.
pub proof fn lemma_edge_window(q: Quad<Node>, z: Node, xi: int, yi: int, p: int, s: int)
    requires
        children_ok(q, depth_of(q.nw)),
        wf(z),
        pop_of(z) == 0,
        0 <= xi < 3,
        0 <= yi < 3,
        in_square(2 * half_width_spec(depth_of(q.nw)), p, s),
    ensures
        alive_in(
            Quad {
                nw: egrid(q, z, yi, xi),
                ne: egrid(q, z, yi, xi + 1),
                sw: egrid(q, z, yi + 1, xi),
                se: egrid(q, z, yi + 1, xi + 1),
            },
            2 * half_width_spec(depth_of(q.nw)),
            p,
            s,
        ) == alive_in(
            q,
            2 * half_width_spec(depth_of(q.nw)),
            p + (xi - 1) * (2 * half_width_spec(depth_of(q.nw))),
            s + (yi - 1) * (2 * half_width_spec(depth_of(q.nw))),
        ),
{
    let h = half_width_spec(depth_of(q.nw));
    lemma_mul_small(xi, 2 * h);
    lemma_mul_small(yi, 2 * h);
    vstd::arithmetic::power2::lemma_pow2_pos(depth_of(q.nw) + 3);
    assert(2 * h / 2 == h);
    lemma_empty_dead(z, re_center_spec(p, h), re_center_spec(s, h));
}

/// Cell `(x, y)` of the 32x32 square made of four leaves' blocks.
pub open spec fn alive4b(a: Quad<Block>, b: Quad<Block>, c: Quad<Block>, d: Quad<Block>, x: int, y: int) -> bool {
    in_square(16, x, y) && alive_blocks(
        Quad { nw: a, ne: b, sw: c, se: d }.at(quadrant_of(x, y)),
        re_center_spec(x, 8),
        re_center_spec(y, 8),
    )
}

/// Block `(row, col)` of the 4x4 grid of blocks of four leaves.
pub open spec fn bgrid(a: Quad<Block>, b: Quad<Block>, c: Quad<Block>, d: Quad<Block>, row: int, col: int) -> Block {
    let q = if row < 2 {
        if col < 2 {
            a
        } else {
            b
        }
    } else {
        if col < 2 {
            c
        } else {
            d
        }
    };
    if row % 2 == 0 {
        if col % 2 == 0 {
            q.nw
        } else {
            q.ne
        }
    } else {
        if col % 2 == 0 {
            q.sw
        } else {
            q.se
        }
    }
}

/// The 2x2 window of blocks at column `xi`, row `yi` shows the 32x32 square
/// shifted by `((xi - 1) * 8, (yi - 1) * 8)`.
pub proof fn lemma_block_window(
    a: Quad<Block>,
    b: Quad<Block>,
    c: Quad<Block>,
    d: Quad<Block>,
    xi: int,
    yi: int,
    p: int,
    q: int,
)
    requires
        0 <= xi < 3,
        0 <= yi < 3,
        in_square(8, p, q),
    ensures
        alive_blocks(
            Quad {
                nw: bgrid(a, b, c, d, yi, xi),
                ne: bgrid(a, b, c, d, yi, xi + 1),
                sw: bgrid(a, b, c, d, yi + 1, xi),
                se: bgrid(a, b, c, d, yi + 1, xi + 1),
            },
            p,
            q,
        ) == alive4b(a, b, c, d, p + (xi - 1) * 8, q + (yi - 1) * 8),
{
}

} // verus!
