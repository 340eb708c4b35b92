//! Zooming out: one cell of the result per `2^k x 2^k` square of the input.
use vstd::prelude::*;

use crate::block::Block;
use crate::memo::{memo_get, memo_of, memo_put};
use crate::node::{
    children_ok, depth_of, lemma_block_pop_zero, lemma_count_zero, node_eq, pop_of, wf, Content,
    Engine, Node, MAX_DEPTH,
};
use crate::quad::Quad;
use crate::step::quad_cell;

verus! {

/// A memo entry of `reduce_to`: `r` is `n` zoomed out to depth `d`.
pub open spec fn reduce_rel(n: Node, d: nat, r: Node) -> bool {
    &&& wf(n)
    &&& wf(r)
    &&& d < depth_of(n)
    &&& depth_of(r) == d
    &&& pop_of(n) == 0 ==> pop_of(r) == 0
}

/// Every entry of the memo table of `reduce_by` maps a node and a target
/// depth to that node zoomed out to that depth.
pub open spec fn reduce_memo_ok(m: Map<(u64, u64), (Node, Node)>) -> bool {
    forall|k: (u64, u64)| #[trigger] m.contains_key(k) ==> reduce_rel(m[k].0, k.1 as nat, m[k].1)
}

/// Halves two blocks side by side horizontally: each output column is the
/// union of two input columns.
pub fn zoom_out_h(w: u64, e: u64) -> (r: u64)
    ensures
        w == 0 && e == 0 ==> r == 0,
        forall|rr: u64, cc: u64|
            rr < 8 && cc < 8 ==> #[trigger] ((r >> vstd::prelude::sub(63u64, vstd::prelude::add(vstd::prelude::mul(8u64, rr), cc))) & 1) == if cc < 4 {
                ((w >> vstd::prelude::sub(63u64, vstd::prelude::add(vstd::prelude::mul(8u64, rr), vstd::prelude::mul(2u64, cc)))) & 1) | ((w >> vstd::prelude::sub(62u64, vstd::prelude::add(vstd::prelude::mul(8u64, rr), vstd::prelude::mul(2u64, cc)))) & 1)
            } else {
                ((e >> vstd::prelude::sub(71u64, vstd::prelude::add(vstd::prelude::mul(8u64, rr), vstd::prelude::mul(2u64, cc)))) & 1) | ((e >> vstd::prelude::sub(70u64, vstd::prelude::add(vstd::prelude::mul(8u64, rr), vstd::prelude::mul(2u64, cc)))) & 1)
            },
{
    let w0 = w;
    let e0 = e;
    let w = w | (w << 1u64);
    let e = e | (e << 1u64);
    let c0 = w & 0x80_80_80_80_80_80_80_80;
    let c1 = (w << 1u64) & 0x40_40_40_40_40_40_40_40;
    let c2 = (w << 2u64) & 0x20_20_20_20_20_20_20_20;
    let c3 = (w << 3u64) & 0x10_10_10_10_10_10_10_10;
    let c4 = (e >> 4u64) & 0x08_08_08_08_08_08_08_08;
    let c5 = (e >> 3u64) & 0x04_04_04_04_04_04_04_04;
    let c6 = (e >> 2u64) & 0x02_02_02_02_02_02_02_02;
    let c7 = (e >> 1u64) & 0x01_01_01_01_01_01_01_01;
    let r = c0 | c1 | c2 | c3 | c4 | c5 | c6 | c7;
    assert((w0 == 0 && e0 == 0 ==> r == 0) && forall|rr: u64, cc: u64|
        rr < 8 && cc < 8 ==> #[trigger] ((r >> vstd::prelude::sub(63u64, vstd::prelude::add(vstd::prelude::mul(8u64, rr), cc))) & 1) == if cc < 4 {
            ((w0 >> vstd::prelude::sub(63u64, vstd::prelude::add(vstd::prelude::mul(8u64, rr), vstd::prelude::mul(2u64, cc)))) & 1) | ((w0 >> vstd::prelude::sub(62u64, vstd::prelude::add(vstd::prelude::mul(8u64, rr), vstd::prelude::mul(2u64, cc)))) & 1)
        } else {
            ((e0 >> vstd::prelude::sub(71u64, vstd::prelude::add(vstd::prelude::mul(8u64, rr), vstd::prelude::mul(2u64, cc)))) & 1) | ((e0 >> vstd::prelude::sub(70u64, vstd::prelude::add(vstd::prelude::mul(8u64, rr), vstd::prelude::mul(2u64, cc)))) & 1)
        }) by (bit_vector)
        requires
            w == w0 | (w0 << 1u64),
            e == e0 | (e0 << 1u64),
            r == (w & 0x80_80_80_80_80_80_80_80) | ((w << 1u64) & 0x40_40_40_40_40_40_40_40) | ((w << 2u64)
                & 0x20_20_20_20_20_20_20_20) | ((w << 3u64) & 0x10_10_10_10_10_10_10_10) | ((e >> 4u64)
                & 0x08_08_08_08_08_08_08_08) | ((e >> 3u64) & 0x04_04_04_04_04_04_04_04) | ((e >> 2u64)
                & 0x02_02_02_02_02_02_02_02) | ((e >> 1u64) & 0x01_01_01_01_01_01_01_01),
    ;
    r
}

/// Halves two blocks one above the other vertically: each output row is the
/// union of two input rows.
pub fn zoom_out_v(n: u64, s: u64) -> (r: u64)
    ensures
        n == 0 && s == 0 ==> r == 0,
        forall|rr: u64, cc: u64|
            rr < 8 && cc < 8 ==> #[trigger] ((r >> vstd::prelude::sub(63u64, vstd::prelude::add(vstd::prelude::mul(8u64, rr), cc))) & 1) == if rr < 4 {
                ((n >> vstd::prelude::sub(63u64, vstd::prelude::add(vstd::prelude::mul(16u64, rr), cc))) & 1) | ((n >> vstd::prelude::sub(55u64, vstd::prelude::add(vstd::prelude::mul(16u64, rr), cc))) & 1)
            } else {
                ((s >> vstd::prelude::sub(127u64, vstd::prelude::add(vstd::prelude::mul(16u64, rr), cc))) & 1) | ((s >> vstd::prelude::sub(119u64, vstd::prelude::add(vstd::prelude::mul(16u64, rr), cc))) & 1)
            },
{
    let n0 = n;
    let s0 = s;
    let n = n | (n << 8u64);
    let s = s | (s << 8u64);
    let r0 = n & 0xff_00_00_00_00_00_00_00;
    let r1 = (n << 8u64) & 0x00_ff_00_00_00_00_00_00;
    let r2 = (n << 16u64) & 0x00_00_ff_00_00_00_00_00;
    let r3 = (n << 24u64) & 0x00_00_00_ff_00_00_00_00;
    let r4 = (s >> 32u64) & 0x00_00_00_00_ff_00_00_00;
    let r5 = (s >> 24u64) & 0x00_00_00_00_00_ff_00_00;
    let r6 = (s >> 16u64) & 0x00_00_00_00_00_00_ff_00;
    let r7 = (s >> 8u64) & 0x00_00_00_00_00_00_00_ff;
    let r = r0 | r1 | r2 | r3 | r4 | r5 | r6 | r7;
    assert((n0 == 0 && s0 == 0 ==> r == 0) && forall|rr: u64, cc: u64|
            rr < 8 && cc < 8 ==> #[trigger] ((r >> vstd::prelude::sub(63u64, vstd::prelude::add(vstd::prelude::mul(8u64, rr), cc))) & 1) == if rr < 4 {
                ((n0 >> vstd::prelude::sub(63u64, vstd::prelude::add(vstd::prelude::mul(16u64, rr), cc))) & 1) | ((n0 >> vstd::prelude::sub(55u64, vstd::prelude::add(vstd::prelude::mul(16u64, rr), cc))) & 1)
            } else {
                ((s0 >> vstd::prelude::sub(127u64, vstd::prelude::add(vstd::prelude::mul(16u64, rr), cc))) & 1) | ((s0 >> vstd::prelude::sub(119u64, vstd::prelude::add(vstd::prelude::mul(16u64, rr), cc))) & 1)
            }) by (bit_vector)
        requires
            n == n0 | (n0 << 8u64),
            s == s0 | (s0 << 8u64),
            r == (n & 0xff_00_00_00_00_00_00_00) | ((n << 8u64) & 0x00_ff_00_00_00_00_00_00) | ((n << 16u64)
                & 0x00_00_ff_00_00_00_00_00) | ((n << 24u64) & 0x00_00_00_ff_00_00_00_00) | ((s >> 32u64)
                & 0x00_00_00_00_ff_00_00_00) | ((s >> 24u64) & 0x00_00_00_00_00_ff_00_00) | ((s >> 16u64)
                & 0x00_00_00_00_00_00_ff_00) | ((s >> 8u64) & 0x00_00_00_00_00_00_00_ff),
    ;
    r
}

impl Quad<Block> {
    /// The four blocks zoomed out by two into one block.
    #[verifier::rlimit(100)]
    pub fn reduce_to_block(&self) -> (r: Block)
        ensures
            self.nw.bits == 0 && self.ne.bits == 0 && self.sw.bits == 0 && self.se.bits == 0
                ==> r.bits == 0,
            forall|row: int, col: int|
                0 <= row < 8 && 0 <= col < 8 ==> #[trigger] r.cell(row, col) == (quad_cell(
                    *self,
                    2 * row,
                    2 * col,
                ) || quad_cell(*self, 2 * row, 2 * col + 1) || quad_cell(*self, 2 * row + 1, 2 * col)
                    || quad_cell(*self, 2 * row + 1, 2 * col + 1)),
    {
        let n = zoom_out_h(self.nw.bits, self.ne.bits);
        let s = zoom_out_h(self.sw.bits, self.se.bits);
        let r = Block::from_rows(zoom_out_v(n, s));
        proof {
            assert((forall|v: u64, j: u64| #[trigger] ((v >> j) & 1) <= 1) && (forall|a: u64, b: u64|
                a <= 1 && b <= 1 ==> (#[trigger] (a | b) == 1 <==> (a == 1 || b == 1)))) by (bit_vector);
            assert forall|row: int, col: int|
                0 <= row < 8 && 0 <= col < 8 implies #[trigger] r.cell(row, col) == (quad_cell(
                    *self,
                    2 * row,
                    2 * col,
                ) || quad_cell(*self, 2 * row, 2 * col + 1) || quad_cell(*self, 2 * row + 1, 2 * col)
                    || quad_cell(*self, 2 * row + 1, 2 * col + 1)) by {
                let rr = row as u64;
                let cc = col as u64;
                let k = vstd::prelude::sub(63u64, vstd::prelude::add(vstd::prelude::mul(8u64, rr), cc));
                assert(k == (63 - 8 * row - col) as u64);
                let src = if rr < 4 { n } else { s };
                let r1 = if rr < 4 { rr } else { (rr - 4) as u64 };
                let ka = vstd::prelude::sub(63u64, vstd::prelude::add(vstd::prelude::mul(16u64, rr), cc));
                let kb = vstd::prelude::sub(55u64, vstd::prelude::add(vstd::prelude::mul(16u64, rr), cc));
                let kc = vstd::prelude::sub(127u64, vstd::prelude::add(vstd::prelude::mul(16u64, rr), cc));
                let kd = vstd::prelude::sub(119u64, vstd::prelude::add(vstd::prelude::mul(16u64, rr), cc));
                assert(((r.bits >> k) & 1) == if rr < 4 {
                    ((n >> ka) & 1) | ((n >> kb) & 1)
                } else {
                    ((s >> kc) & 1) | ((s >> kd) & 1)
                });
                // the two source rows of the zoomed strips
                let ra = if rr < 4 { (2 * rr) as u64 } else { (2 * rr - 8) as u64 };
                let rb = (ra + 1) as u64;
                assert(if rr < 4 { ka == (63 - 8 * ra - col) as u64 && kb == (63 - 8 * rb - col) as u64 } else {
                    kc == (63 - 8 * ra - col) as u64 && kd == (63 - 8 * rb - col) as u64 });
                let k1 = vstd::prelude::sub(63u64, vstd::prelude::add(vstd::prelude::mul(8u64, ra), cc));
                let k2 = vstd::prelude::sub(63u64, vstd::prelude::add(vstd::prelude::mul(8u64, rb), cc));
                assert(k1 == (63 - 8 * ra - col) as u64 && k2 == (63 - 8 * rb - col) as u64);
                let w1a = vstd::prelude::sub(63u64, vstd::prelude::add(vstd::prelude::mul(8u64, ra), vstd::prelude::mul(2u64, cc)));
                let w1b = vstd::prelude::sub(62u64, vstd::prelude::add(vstd::prelude::mul(8u64, ra), vstd::prelude::mul(2u64, cc)));
                let e1a = vstd::prelude::sub(71u64, vstd::prelude::add(vstd::prelude::mul(8u64, ra), vstd::prelude::mul(2u64, cc)));
                let e1b = vstd::prelude::sub(70u64, vstd::prelude::add(vstd::prelude::mul(8u64, ra), vstd::prelude::mul(2u64, cc)));
                let w2a = vstd::prelude::sub(63u64, vstd::prelude::add(vstd::prelude::mul(8u64, rb), vstd::prelude::mul(2u64, cc)));
                let w2b = vstd::prelude::sub(62u64, vstd::prelude::add(vstd::prelude::mul(8u64, rb), vstd::prelude::mul(2u64, cc)));
                let e2a = vstd::prelude::sub(71u64, vstd::prelude::add(vstd::prelude::mul(8u64, rb), vstd::prelude::mul(2u64, cc)));
                let e2b = vstd::prelude::sub(70u64, vstd::prelude::add(vstd::prelude::mul(8u64, rb), vstd::prelude::mul(2u64, cc)));
                assert(w1a == (63 - 8 * ra - 2 * col) as u64 && w1b == (62 - 8 * ra - 2 * col) as u64);
                assert(e1a == (71 - 8 * ra - 2 * col) as u64 && e1b == (70 - 8 * ra - 2 * col) as u64);
                assert(w2a == (63 - 8 * rb - 2 * col) as u64 && w2b == (62 - 8 * rb - 2 * col) as u64);
                assert(e2a == (71 - 8 * rb - 2 * col) as u64 && e2b == (70 - 8 * rb - 2 * col) as u64);
                if rr < 4 {
                    assert(((n >> k1) & 1) == if cc < 4 { ((self.nw.bits >> w1a) & 1) | ((self.nw.bits >> w1b) & 1) } else { ((self.ne.bits >> e1a) & 1) | ((self.ne.bits >> e1b) & 1) });
                    assert(((n >> k2) & 1) == if cc < 4 { ((self.nw.bits >> w2a) & 1) | ((self.nw.bits >> w2b) & 1) } else { ((self.ne.bits >> e2a) & 1) | ((self.ne.bits >> e2b) & 1) });
                } else {
                    assert(((s >> k1) & 1) == if cc < 4 { ((self.sw.bits >> w1a) & 1) | ((self.sw.bits >> w1b) & 1) } else { ((self.se.bits >> e1a) & 1) | ((self.se.bits >> e1b) & 1) });
                    assert(((s >> k2) & 1) == if cc < 4 { ((self.sw.bits >> w2a) & 1) | ((self.sw.bits >> w2b) & 1) } else { ((self.se.bits >> e2a) & 1) | ((self.se.bits >> e2b) & 1) });
                }
            }
        }
        r
    }
}

impl Quad<Node> {
    /// The occupancy of four nodes' sixteen children as a 4x4 corner of a
    /// block.
    pub fn reduce_to_16(&self) -> (r: u64)
        requires
            wf(self.nw) && wf(self.ne) && wf(self.sw) && wf(self.se),
        ensures
            pop_of(self.nw) == 0 && pop_of(self.ne) == 0 && pop_of(self.sw) == 0 && pop_of(self.se)
                == 0 ==> r == 0,
            r == (occupancy4(self.nw) << 18u64) | (occupancy4(self.ne) << 16u64) | (occupancy4(self.sw)
                << 2u64) | occupancy4(self.se),
    {
        let nw = self.nw.reduce_to_4();
        let ne = self.ne.reduce_to_4();
        let sw = self.sw.reduce_to_4();
        let se = self.se.reduce_to_4();
        assert(nw == 0 && ne == 0 && sw == 0 && se == 0 ==> (nw << 18u64) | (ne << 16u64) | (sw
            << 2u64) | se == 0) by (bit_vector);
        (nw << 18u64) | (ne << 16u64) | (sw << 2u64) | se
    }
}

impl Node {
    /// The occupancy of the four quadrants as a 2x2 corner of a block.
    pub fn reduce_to_4(&self) -> (r: u64)
        requires
            wf(*self),
        ensures
            pop_of(*self) == 0 ==> r == 0,
            r == occupancy4(*self),
    {
        let (a, b, c, d) = match &self.0.content {
            Content::Leaf(q) => {
                proof {
                    lemma_count_zero(64);
                    if q.nw.bits == 0 {
                        assert(q.nw.pop() == 0);
                    }
                }
                (q.nw.bits == 0, q.ne.bits == 0, q.sw.bits == 0, q.se.bits == 0)
            },
            Content::Inner(_, q) => {
                proof {
                    assert(wf(q.nw) && wf(q.ne) && wf(q.sw) && wf(q.se));
                }
                (q.nw.is_empty(), q.ne.is_empty(), q.sw.is_empty(), q.se.is_empty())
            },
        };
        proof {
            if pop_of(*self) == 0 {
                match self.0.content {
                    Content::Leaf(q) => {
                        lemma_block_pop_zero(q.nw);
                        lemma_block_pop_zero(q.ne);
                        lemma_block_pop_zero(q.sw);
                        lemma_block_pop_zero(q.se);
                    },
                    Content::Inner(..) => {},
                }
            }
        }
        assert((0u64 | 0u64) | 0u64 | 0u64 == 0u64) by (bit_vector);
        (if !a { 512u64 } else { 0u64 }) | (if !b { 256u64 } else { 0u64 }) | (if !c { 2u64 } else { 0u64 })
            | (if !d { 1u64 } else { 0u64 })
    }

    /// The node zoomed out to a single block: each cell tells whether its
    /// share of the node holds a live cell.
    pub fn reduce_to_block(&self) -> (r: Block)
        requires
            wf(*self),
        ensures
            pop_of(*self) == 0 ==> r.bits == 0,
    {
        match &self.0.content {
            Content::Leaf(q) => {
                proof {
                    if pop_of(*self) == 0 {
                        lemma_block_pop_zero(q.nw);
                        lemma_block_pop_zero(q.ne);
                        lemma_block_pop_zero(q.sw);
                        lemma_block_pop_zero(q.se);
                    }
                }
                q.reduce_to_block()
            },
            Content::Inner(d, q) => {
                proof {
                    assert(children_ok(*q, (*d - 1) as nat));
                }
                match (&q.nw.0.content, &q.ne.0.content, &q.sw.0.content, &q.se.0.content) {
                    (Content::Leaf(a), Content::Leaf(b), Content::Leaf(c), Content::Leaf(dd)) => {
                        proof {
                            if pop_of(*self) == 0 {
                                lemma_block_pop_zero(a.nw);
                                lemma_block_pop_zero(a.ne);
                                lemma_block_pop_zero(a.sw);
                                lemma_block_pop_zero(a.se);
                                lemma_block_pop_zero(b.nw);
                                lemma_block_pop_zero(b.ne);
                                lemma_block_pop_zero(b.sw);
                                lemma_block_pop_zero(b.se);
                                lemma_block_pop_zero(c.nw);
                                lemma_block_pop_zero(c.ne);
                                lemma_block_pop_zero(c.sw);
                                lemma_block_pop_zero(c.se);
                                lemma_block_pop_zero(dd.nw);
                                lemma_block_pop_zero(dd.ne);
                                lemma_block_pop_zero(dd.sw);
                                lemma_block_pop_zero(dd.se);
                            }
                        }
                        let out = Quad {
                            nw: a.reduce_to_block(),
                            ne: b.reduce_to_block(),
                            sw: c.reduce_to_block(),
                            se: dd.reduce_to_block(),
                        };
                        out.reduce_to_block()
                    },
                    (
                        Content::Inner(_, a),
                        Content::Inner(_, b),
                        Content::Inner(_, c),
                        Content::Inner(_, dd),
                    ) => {
                        proof {
                            assert(children_ok(*a, (*d - 2) as nat));
                            assert(children_ok(*b, (*d - 2) as nat));
                            assert(children_ok(*c, (*d - 2) as nat));
                            assert(children_ok(*dd, (*d - 2) as nat));
                        }
                        let nw = a.reduce_to_16();
                        let ne = b.reduce_to_16();
                        let sw = c.reduce_to_16();
                        let se = dd.reduce_to_16();
                        assert(nw == 0 && ne == 0 && sw == 0 && se == 0 ==> (nw << 36u64) | (ne
                            << 32u64) | (sw << 4u64) | se == 0) by (bit_vector);
                        Block::from_rows((nw << 36u64) | (ne << 32u64) | (sw << 4u64) | se)
                    },
                    _ => {
                        proof {
                            assert(false);
                        }
                        Block::empty()
                    },
                }
            },
        }
    }

    /// The universe at `2^amount` cells per cell: each output cell is alive
    /// when its square of the input holds a live cell.
    pub fn reduce_by(&self, e: &mut Engine, amount: u8) -> (r: Node)
        requires
            old(e).inv(),
            wf(*self),
            amount <= MAX_DEPTH,
        ensures
            final(e).inv(),
            wf(r),
            amount == 0 ==> r == *self,
            amount > 0 ==> depth_of(r) == if amount >= depth_of(*self) {
                0
            } else {
                depth_of(*self) - amount
            },
            pop_of(*self) == 0 ==> pop_of(r) == 0,
    {
        if amount == 0 {
            return self.dup();
        }
        let depth = self.depth();
        if amount > depth {
            let c = self.center_at_depth(e, amount);
            reduce_to(e, &c, 0)
        } else {
            reduce_to(e, self, depth - amount)
        }
    }
}

/// The occupancy of the quadrants of `n` as bits 9 (north-west), 8
/// (north-east), 1 (south-west) and 0 (south-east).
pub open spec fn occupancy4(n: Node) -> u64 {
    let (a, b, c, d) = match n.0.content {
        Content::Leaf(q) => (q.nw.bits != 0, q.ne.bits != 0, q.sw.bits != 0, q.se.bits != 0),
        Content::Inner(_, q) => (pop_of(q.nw) != 0, pop_of(q.ne) != 0, pop_of(q.sw) != 0, pop_of(q.se) != 0),
    };
    (if a { 512u64 } else { 0u64 }) | (if b { 256u64 } else { 0u64 }) | (if c { 2u64 } else { 0u64 }) | (
    if d { 1u64 } else { 0u64 })
}

/// `n` zoomed out to depth `depth`, looked up in the memo table first.
fn reduce_to(e: &mut Engine, n: &Node, depth: u8) -> (r: Node)
    requires
        old(e).inv(),
        wf(*n),
        depth < depth_of(*n),
    ensures
        final(e).inv(),
        reduce_rel(*n, depth as nat, r),
    decreases depth_of(*n), 1nat,
{
    let key = (n.0.id, depth as u64);
    match memo_get(&mut e.reduced, &key) {
        Some(hit) => {
            if node_eq(&hit.0, n) {
                return hit.1;
            }
        },
        None => {},
    }
    let r = reduce_to_impl(e, n, depth);
    let ghost old_memo = memo_of(e.reduced);
    memo_put(&mut e.reduced, key, (n.dup(), r.dup()));
    proof {
        let m = memo_of(e.reduced);
        assert forall|k: (u64, u64)| #[trigger] m.contains_key(k) implies reduce_rel(
            m[k].0,
            k.1 as nat,
            m[k].1,
        ) by {
            assert(old_memo.insert(key, (*n, r)).contains_key(k));
            if k != key {
                assert(old_memo.contains_key(k));
            }
        }
    }
    r
}

fn reduce_to_impl(e: &mut Engine, n: &Node, depth: u8) -> (r: Node)
    requires
        old(e).inv(),
        wf(*n),
        depth < depth_of(*n),
    ensures
        final(e).inv(),
        reduce_rel(*n, depth as nat, r),
    decreases depth_of(*n), 0nat,
{
    match &n.0.content {
        Content::Inner(d, q) => {
            proof {
                assert(children_ok(*q, (*d - 1) as nat));
            }
            if depth == 0 {
                let out = Quad {
                    nw: q.nw.reduce_to_block(),
                    ne: q.ne.reduce_to_block(),
                    sw: q.sw.reduce_to_block(),
                    se: q.se.reduce_to_block(),
                };
                proof {
                    if pop_of(*n) == 0 {
                        lemma_count_zero(64);
                    }
                }
                Node::new_leaf(e, out)
            } else {
                let nw = reduce_to(e, &q.nw, depth - 1);
                let ne = reduce_to(e, &q.ne, depth - 1);
                let sw = reduce_to(e, &q.sw, depth - 1);
                let se = reduce_to(e, &q.se, depth - 1);
                Node::new_depth_inner(e, depth, Quad { nw, ne, sw, se })
            }
        },
        Content::Leaf(_) => {
            proof {
                assert(false);
            }
            n.dup()
        },
    }
}

} // verus!
