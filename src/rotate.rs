//! Rotations and reflections about the origin.
use vstd::prelude::*;

use crate::block::Block;
use crate::node::{alive, block_alive, children_ok, depth_of, in_square, wf, Content, Engine, Node};
use crate::pos::re_center_spec;
use crate::semantics::{lemma_alive_inner, lemma_alive_leaf};
use crate::quad::Quad;

verus! {

impl Node {
    /// The mirror image east to west.
    pub fn flip_h(&self, e: &mut Engine) -> (r: Node)
        requires
            old(e).inv(),
            wf(*self),
        ensures
            final(e).inv(),
            wf(r),
            depth_of(r) == depth_of(*self),
            forall|x: int, y: int| #[trigger] alive(r, x, y) == alive(*self, -1 - x, y),
        decreases *self,
    {
        match &self.0.content {
            Content::Leaf(q) => {
                let r = Node::new_leaf(e, q.flip_h_blocks());
                proof {
                    assert forall|x: int, y: int| #[trigger] alive(r, x, y) == alive(*self, -1 - x, y) by {
                        lemma_alive_leaf(r, x, y);
                        lemma_alive_leaf(*self, -1 - x, y);
                        let bx = re_center_spec(x, 4);
                        let by = re_center_spec(y, 4);
                        lemma_block_flip_h_cells(q.nw, bx, by);
                        lemma_block_flip_h_cells(q.ne, bx, by);
                        lemma_block_flip_h_cells(q.sw, bx, by);
                        lemma_block_flip_h_cells(q.se, bx, by);
                    }
                }
                r
            },
            Content::Inner(d, q) => {
                proof {
                    assert(children_ok(*q, (*d - 1) as nat));
                }
                let nw = q.ne.flip_h(e);
                let ne = q.nw.flip_h(e);
                let sw = q.se.flip_h(e);
                let se = q.sw.flip_h(e);
                let r = Node::new_depth_inner(e, *d, Quad { nw, ne, sw, se });
                proof {
                    assert forall|x: int, y: int| #[trigger] alive(r, x, y) == alive(*self, -1 - x, y) by {
                        lemma_alive_inner(r, x, y);
                        lemma_alive_inner(*self, -1 - x, y);
                    }
                }
                r
            },
        }
    }

    /// The mirror image north to south.
    pub fn flip_v(&self, e: &mut Engine) -> (r: Node)
        requires
            old(e).inv(),
            wf(*self),
        ensures
            final(e).inv(),
            wf(r),
            depth_of(r) == depth_of(*self),
            forall|x: int, y: int| #[trigger] alive(r, x, y) == alive(*self, x, -1 - y),
        decreases *self,
    {
        match &self.0.content {
            Content::Leaf(q) => {
                let r = Node::new_leaf(e, q.flip_v_blocks());
                proof {
                    assert forall|x: int, y: int| #[trigger] alive(r, x, y) == alive(*self, x, -1 - y) by {
                        lemma_alive_leaf(r, x, y);
                        lemma_alive_leaf(*self, x, -1 - y);
                        let bx = re_center_spec(x, 4);
                        let by = re_center_spec(y, 4);
                        lemma_block_flip_v_cells(q.nw, bx, by);
                        lemma_block_flip_v_cells(q.ne, bx, by);
                        lemma_block_flip_v_cells(q.sw, bx, by);
                        lemma_block_flip_v_cells(q.se, bx, by);
                    }
                }
                r
            },
            Content::Inner(d, q) => {
                proof {
                    assert(children_ok(*q, (*d - 1) as nat));
                }
                let nw = q.sw.flip_v(e);
                let ne = q.se.flip_v(e);
                let sw = q.nw.flip_v(e);
                let se = q.ne.flip_v(e);
                let r = Node::new_depth_inner(e, *d, Quad { nw, ne, sw, se });
                proof {
                    assert forall|x: int, y: int| #[trigger] alive(r, x, y) == alive(*self, x, -1 - y) by {
                        lemma_alive_inner(r, x, y);
                        lemma_alive_inner(*self, x, -1 - y);
                    }
                }
                r
            },
        }
    }

    /// The universe turned a quarter turn clockwise.
    pub fn rotate_cw(&self, e: &mut Engine) -> (r: Node)
        requires
            old(e).inv(),
            wf(*self),
        ensures
            final(e).inv(),
            wf(r),
            depth_of(r) == depth_of(*self),
            forall|x: int, y: int| #[trigger] alive(r, x, y) == alive(*self, y, -1 - x),
        decreases *self,
    {
        match &self.0.content {
            Content::Leaf(q) => {
                let r = Node::new_leaf(e, q.rotate_cw_blocks());
                proof {
                    assert forall|x: int, y: int| #[trigger] alive(r, x, y) == alive(*self, y, -1 - x) by {
                        lemma_alive_leaf(r, x, y);
                        lemma_alive_leaf(*self, y, -1 - x);
                        let bx = re_center_spec(x, 4);
                        let by = re_center_spec(y, 4);
                        lemma_block_rotate_cw_cells(q.nw, bx, by);
                        lemma_block_rotate_cw_cells(q.ne, bx, by);
                        lemma_block_rotate_cw_cells(q.sw, bx, by);
                        lemma_block_rotate_cw_cells(q.se, bx, by);
                    }
                }
                r
            },
            Content::Inner(d, q) => {
                proof {
                    assert(children_ok(*q, (*d - 1) as nat));
                }
                let nw = q.sw.rotate_cw(e);
                let ne = q.nw.rotate_cw(e);
                let sw = q.se.rotate_cw(e);
                let se = q.ne.rotate_cw(e);
                let r = Node::new_depth_inner(e, *d, Quad { nw, ne, sw, se });
                proof {
                    assert forall|x: int, y: int| #[trigger] alive(r, x, y) == alive(*self, y, -1 - x) by {
                        lemma_alive_inner(r, x, y);
                        lemma_alive_inner(*self, y, -1 - x);
                    }
                }
                r
            },
        }
    }

    /// The universe turned a half turn.
    pub fn rotate_180(&self, e: &mut Engine) -> (r: Node)
        requires
            old(e).inv(),
            wf(*self),
        ensures
            final(e).inv(),
            wf(r),
            depth_of(r) == depth_of(*self),
            forall|x: int, y: int| #[trigger] alive(r, x, y) == alive(*self, -1 - x, -1 - y),
        decreases *self,
    {
        match &self.0.content {
            Content::Leaf(q) => {
                let r = Node::new_leaf(e, q.rotate_180_blocks());
                proof {
                    assert forall|x: int, y: int| #[trigger] alive(r, x, y) == alive(*self, -1 - x, -1 - y) by {
                        lemma_alive_leaf(r, x, y);
                        lemma_alive_leaf(*self, -1 - x, -1 - y);
                        let bx = re_center_spec(x, 4);
                        let by = re_center_spec(y, 4);
                        lemma_block_rotate_180_cells(q.nw, bx, by);
                        lemma_block_rotate_180_cells(q.ne, bx, by);
                        lemma_block_rotate_180_cells(q.sw, bx, by);
                        lemma_block_rotate_180_cells(q.se, bx, by);
                    }
                }
                r
            },
            Content::Inner(d, q) => {
                proof {
                    assert(children_ok(*q, (*d - 1) as nat));
                }
                let nw = q.se.rotate_180(e);
                let ne = q.sw.rotate_180(e);
                let sw = q.ne.rotate_180(e);
                let se = q.nw.rotate_180(e);
                let r = Node::new_depth_inner(e, *d, Quad { nw, ne, sw, se });
                proof {
                    assert forall|x: int, y: int| #[trigger] alive(r, x, y) == alive(*self, -1 - x, -1 - y) by {
                        lemma_alive_inner(r, x, y);
                        lemma_alive_inner(*self, -1 - x, -1 - y);
                    }
                }
                r
            },
        }
    }

    /// The universe turned a quarter turn counter-clockwise.
    pub fn rotate_ccw(&self, e: &mut Engine) -> (r: Node)
        requires
            old(e).inv(),
            wf(*self),
        ensures
            final(e).inv(),
            wf(r),
            depth_of(r) == depth_of(*self),
            forall|x: int, y: int| #[trigger] alive(r, x, y) == alive(*self, -1 - y, x),
        decreases *self,
    {
        match &self.0.content {
            Content::Leaf(q) => {
                let r = Node::new_leaf(e, q.rotate_ccw_blocks());
                proof {
                    assert forall|x: int, y: int| #[trigger] alive(r, x, y) == alive(*self, -1 - y, x) by {
                        lemma_alive_leaf(r, x, y);
                        lemma_alive_leaf(*self, -1 - y, x);
                        let bx = re_center_spec(x, 4);
                        let by = re_center_spec(y, 4);
                        lemma_block_rotate_ccw_cells(q.nw, bx, by);
                        lemma_block_rotate_ccw_cells(q.ne, bx, by);
                        lemma_block_rotate_ccw_cells(q.sw, bx, by);
                        lemma_block_rotate_ccw_cells(q.se, bx, by);
                    }
                }
                r
            },
            Content::Inner(d, q) => {
                proof {
                    assert(children_ok(*q, (*d - 1) as nat));
                }
                let nw = q.ne.rotate_ccw(e);
                let ne = q.se.rotate_ccw(e);
                let sw = q.nw.rotate_ccw(e);
                let se = q.sw.rotate_ccw(e);
                let r = Node::new_depth_inner(e, *d, Quad { nw, ne, sw, se });
                proof {
                    assert forall|x: int, y: int| #[trigger] alive(r, x, y) == alive(*self, -1 - y, x) by {
                        lemma_alive_inner(r, x, y);
                        lemma_alive_inner(*self, -1 - y, x);
                    }
                }
                r
            },
        }
    }

}

impl Quad<Block> {
    /// Four blocks arranged and transformed as the mirror image east to west.
    pub fn flip_h_blocks(&self) -> (r: Quad<Block>)
        ensures
            r.nw == self.ne.flip_h_spec(),
            r.ne == self.nw.flip_h_spec(),
            r.sw == self.se.flip_h_spec(),
            r.se == self.sw.flip_h_spec(),
    {
        Quad {
            nw: self.ne.flip_h(),
            ne: self.nw.flip_h(),
            sw: self.se.flip_h(),
            se: self.sw.flip_h(),
        }
    }

    /// Four blocks arranged and transformed as the mirror image north to south.
    pub fn flip_v_blocks(&self) -> (r: Quad<Block>)
        ensures
            r.nw == self.sw.flip_v_spec(),
            r.ne == self.se.flip_v_spec(),
            r.sw == self.nw.flip_v_spec(),
            r.se == self.ne.flip_v_spec(),
    {
        Quad {
            nw: self.sw.flip_v(),
            ne: self.se.flip_v(),
            sw: self.nw.flip_v(),
            se: self.ne.flip_v(),
        }
    }

    /// Four blocks arranged and transformed as the universe turned a quarter turn clockwise.
    pub fn rotate_cw_blocks(&self) -> (r: Quad<Block>)
        ensures
            r.nw == self.sw.rotate_cw_spec(),
            r.ne == self.nw.rotate_cw_spec(),
            r.sw == self.se.rotate_cw_spec(),
            r.se == self.ne.rotate_cw_spec(),
    {
        Quad {
            nw: self.sw.rotate_cw(),
            ne: self.nw.rotate_cw(),
            sw: self.se.rotate_cw(),
            se: self.ne.rotate_cw(),
        }
    }

    /// Four blocks arranged and transformed as the universe turned a half turn.
    pub fn rotate_180_blocks(&self) -> (r: Quad<Block>)
        ensures
            r.nw == self.se.rotate_180_spec(),
            r.ne == self.sw.rotate_180_spec(),
            r.sw == self.ne.rotate_180_spec(),
            r.se == self.nw.rotate_180_spec(),
    {
        Quad {
            nw: self.se.rotate_180(),
            ne: self.sw.rotate_180(),
            sw: self.ne.rotate_180(),
            se: self.nw.rotate_180(),
        }
    }

    /// Four blocks arranged and transformed as the universe turned a quarter turn counter-clockwise.
    pub fn rotate_ccw_blocks(&self) -> (r: Quad<Block>)
        ensures
            r.nw == self.ne.rotate_ccw_spec(),
            r.ne == self.se.rotate_ccw_spec(),
            r.sw == self.nw.rotate_ccw_spec(),
            r.se == self.sw.rotate_ccw_spec(),
    {
        Quad {
            nw: self.ne.rotate_ccw(),
            ne: self.se.rotate_ccw(),
            sw: self.nw.rotate_ccw(),
            se: self.sw.rotate_ccw(),
        }
    }

}
/// Bits of a block mirrored east to west.
pub open spec fn flip_h_bits(x: u64) -> u64 {
    let x = (x & 0xf0_f0_f0_f0_f0_f0_f0_f0) >> 4u64 | (x & 0x0f_0f_0f_0f_0f_0f_0f_0f) << 4u64;
    let x = (x & 0xcc_cc_cc_cc_cc_cc_cc_cc) >> 2u64 | (x & 0x33_33_33_33_33_33_33_33) << 2u64;
    (x & 0xaa_aa_aa_aa_aa_aa_aa_aa) >> 1u64 | (x & 0x55_55_55_55_55_55_55_55) << 1u64
}

/// Bits of a block mirrored north to south.
pub open spec fn flip_v_bits(x: u64) -> u64 {
    let x = (x & 0xff_ff_ff_ff_00_00_00_00) >> 32u64 | (x & 0x00_00_00_00_ff_ff_ff_ff) << 32u64;
    let x = (x & 0xff_ff_00_00_ff_ff_00_00) >> 16u64 | (x & 0x00_00_ff_ff_00_00_ff_ff) << 16u64;
    (x & 0xff_00_ff_00_ff_00_ff_00) >> 8u64 | (x & 0x00_ff_00_ff_00_ff_00_ff) << 8u64
}

/// Bits of a block mirrored about its main diagonal.
pub open spec fn flip_d_bits(x: u64) -> u64 {
    let x = (x & 0x0f_0f_0f_0f_00_00_00_00) >> 28u64 | (x & 0x00_00_00_00_f0_f0_f0_f0) << 28u64 | (x
        & 0xf0_f0_f0_f0_0f_0f_0f_0f);
    let x = (x & 0x33_33_00_00_33_33_00_00) >> 14u64 | (x & 0x00_00_cc_cc_00_00_cc_cc) << 14u64 | (x
        & 0xcc_cc_33_33_cc_cc_33_33);
    (x & 0x55_00_55_00_55_00_55_00) >> 7u64 | (x & 0x00_aa_00_aa_00_aa_00_aa) << 7u64 | (x
        & 0xaa_55_aa_55_aa_55_aa_55)
}

impl Block {
    pub open spec fn flip_h_spec(self) -> Block {
        Block { bits: flip_h_bits(self.bits) }
    }

    pub open spec fn flip_v_spec(self) -> Block {
        Block { bits: flip_v_bits(self.bits) }
    }

    pub open spec fn flip_d_spec(self) -> Block {
        Block { bits: flip_d_bits(self.bits) }
    }

    pub open spec fn rotate_cw_spec(self) -> Block {
        self.flip_d_spec().flip_h_spec()
    }

    pub open spec fn rotate_180_spec(self) -> Block {
        self.flip_v_spec().flip_h_spec()
    }

    pub open spec fn rotate_ccw_spec(self) -> Block {
        self.flip_d_spec().flip_v_spec()
    }

    /// The block mirrored east to west: cell `(r, c)` moves to `(r, 7 - c)`.
    pub fn flip_h(self) -> (r: Block)
        ensures
            r == self.flip_h_spec(),
    {
        let x = self.bits;
        let x1 = (x & 0xf0_f0_f0_f0_f0_f0_f0_f0) >> 4u64 | (x & 0x0f_0f_0f_0f_0f_0f_0f_0f) << 4u64;
        let x2 = (x1 & 0xcc_cc_cc_cc_cc_cc_cc_cc) >> 2u64 | (x1 & 0x33_33_33_33_33_33_33_33) << 2u64;
        let x3 = (x2 & 0xaa_aa_aa_aa_aa_aa_aa_aa) >> 1u64 | (x2 & 0x55_55_55_55_55_55_55_55) << 1u64;
        Block::from_rows(x3)
    }

    /// The block mirrored north to south: cell `(r, c)` moves to `(7 - r, c)`.
    pub fn flip_v(self) -> (r: Block)
        ensures
            r == self.flip_v_spec(),
    {
        let x = self.bits;
        let x1 = (x & 0xff_ff_ff_ff_00_00_00_00) >> 32u64 | (x & 0x00_00_00_00_ff_ff_ff_ff) << 32u64;
        let x2 = (x1 & 0xff_ff_00_00_ff_ff_00_00) >> 16u64 | (x1 & 0x00_00_ff_ff_00_00_ff_ff) << 16u64;
        let x3 = (x2 & 0xff_00_ff_00_ff_00_ff_00) >> 8u64 | (x2 & 0x00_ff_00_ff_00_ff_00_ff) << 8u64;
        Block::from_rows(x3)
    }

    /// The block mirrored about its main diagonal: cell `(r, c)` moves to
    /// `(c, r)`.
    pub fn flip_d(self) -> (r: Block)
        ensures
            r == self.flip_d_spec(),
    {
        let x = self.bits;
        let x1 = (x & 0x0f_0f_0f_0f_00_00_00_00) >> 28u64 | (x & 0x00_00_00_00_f0_f0_f0_f0) << 28u64 | (x
            & 0xf0_f0_f0_f0_0f_0f_0f_0f);
        let x2 = (x1 & 0x33_33_00_00_33_33_00_00) >> 14u64 | (x1 & 0x00_00_cc_cc_00_00_cc_cc) << 14u64 | (x1
            & 0xcc_cc_33_33_cc_cc_33_33);
        let x3 = (x2 & 0x55_00_55_00_55_00_55_00) >> 7u64 | (x2 & 0x00_aa_00_aa_00_aa_00_aa) << 7u64 | (x2
            & 0xaa_55_aa_55_aa_55_aa_55);
        Block::from_rows(x3)
    }

    /// The block turned a quarter turn clockwise.
    pub fn rotate_cw(self) -> (r: Block)
        ensures
            r == self.rotate_cw_spec(),
    {
        self.flip_d().flip_h()
    }

    /// The block turned a half turn.
    pub fn rotate_180(self) -> (r: Block)
        ensures
            r == self.rotate_180_spec(),
    {
        self.flip_v().flip_h()
    }

    /// The block turned a quarter turn counter-clockwise.
    pub fn rotate_ccw(self) -> (r: Block)
        ensures
            r == self.rotate_ccw_spec(),
    {
        self.flip_d().flip_v()
    }
}

} // verus!

verus! {

/// Cell `(x, y)` of the transformed block is cell `(-1 - x, y)` of the block.
pub proof fn lemma_block_flip_h_cells(b: Block, x: int, y: int)
    ensures
        block_alive(b.flip_h_spec(), x, y) == block_alive(b, -1 - x, y),
{
    if in_square(4, x, y) {
        let m = (3 - y) as u64;
        let j = (3 - x) as u64;
        let v = b.bits;
        assert(m < 8 && j < 8 ==> (((flip_h_bits(v)) >> vstd::prelude::add(vstd::prelude::mul(8u64, m), j)) & 1) == ((v >> vstd::prelude::add(vstd::prelude::mul(8u64, m), vstd::prelude::sub(7u64, j))) & 1)) by (bit_vector);
    }
}

/// Cell `(x, y)` of the transformed block is cell `(x, -1 - y)` of the block.
pub proof fn lemma_block_flip_v_cells(b: Block, x: int, y: int)
    ensures
        block_alive(b.flip_v_spec(), x, y) == block_alive(b, x, -1 - y),
{
    if in_square(4, x, y) {
        let m = (3 - y) as u64;
        let j = (3 - x) as u64;
        let v = b.bits;
        assert(m < 8 && j < 8 ==> (((flip_v_bits(v)) >> vstd::prelude::add(vstd::prelude::mul(8u64, m), j)) & 1) == ((v >> vstd::prelude::add(vstd::prelude::mul(8u64, vstd::prelude::sub(7u64, m)), j)) & 1)) by (bit_vector);
    }
}

/// Cell `(x, y)` of the transformed block is cell `(y, -1 - x)` of the block.
pub proof fn lemma_block_rotate_cw_cells(b: Block, x: int, y: int)
    ensures
        block_alive(b.rotate_cw_spec(), x, y) == block_alive(b, y, -1 - x),
{
    if in_square(4, x, y) {
        let m = (3 - y) as u64;
        let j = (3 - x) as u64;
        let v = b.bits;
        assert(m < 8 && j < 8 ==> (((flip_h_bits(flip_d_bits(v))) >> vstd::prelude::add(vstd::prelude::mul(8u64, m), j)) & 1) == ((v >> vstd::prelude::add(vstd::prelude::mul(8u64, vstd::prelude::sub(7u64, j)), m)) & 1)) by (bit_vector);
    }
}

/// Cell `(x, y)` of the transformed block is cell `(-1 - x, -1 - y)` of the block.
pub proof fn lemma_block_rotate_180_cells(b: Block, x: int, y: int)
    ensures
        block_alive(b.rotate_180_spec(), x, y) == block_alive(b, -1 - x, -1 - y),
{
    if in_square(4, x, y) {
        let m = (3 - y) as u64;
        let j = (3 - x) as u64;
        let v = b.bits;
        assert(m < 8 && j < 8 ==> (((flip_h_bits(flip_v_bits(v))) >> vstd::prelude::add(vstd::prelude::mul(8u64, m), j)) & 1) == ((v >> vstd::prelude::add(vstd::prelude::mul(8u64, vstd::prelude::sub(7u64, m)), vstd::prelude::sub(7u64, j))) & 1)) by (bit_vector);
    }
}

/// Cell `(x, y)` of the transformed block is cell `(-1 - y, x)` of the block.
pub proof fn lemma_block_rotate_ccw_cells(b: Block, x: int, y: int)
    ensures
        block_alive(b.rotate_ccw_spec(), x, y) == block_alive(b, -1 - y, x),
{
    if in_square(4, x, y) {
        let m = (3 - y) as u64;
        let j = (3 - x) as u64;
        let v = b.bits;
        assert(m < 8 && j < 8 ==> (((flip_v_bits(flip_d_bits(v))) >> vstd::prelude::add(vstd::prelude::mul(8u64, m), j)) & 1) == ((v >> vstd::prelude::add(vstd::prelude::mul(8u64, j), vstd::prelude::sub(7u64, m))) & 1)) by (bit_vector);
    }
}

/// Mirroring a block east to west twice gives it back.
pub proof fn lemma_flip_h_twice(x: u64)
    ensures
        flip_h_bits(flip_h_bits(x)) == x,
{
    assert(flip_h_bits(flip_h_bits(x)) == x) by (bit_vector);
}

/// Mirroring a block north to south twice gives it back.
pub proof fn lemma_flip_v_twice(x: u64)
    ensures
        flip_v_bits(flip_v_bits(x)) == x,
{
    assert(flip_v_bits(flip_v_bits(x)) == x) by (bit_vector);
}

/// Mirroring a block about its diagonal twice gives it back.
pub proof fn lemma_flip_d_twice(x: u64)
    ensures
        flip_d_bits(flip_d_bits(x)) == x,
{
    assert(flip_d_bits(flip_d_bits(x)) == x) by (bit_vector);
}

/// A quarter turn clockwise undoes a quarter turn counter-clockwise, and a
/// half turn undoes itself.
pub proof fn lemma_block_turns_invert(b: Block)
    ensures
        b.rotate_ccw_spec().rotate_cw_spec() == b,
        b.rotate_180_spec().rotate_180_spec() == b,
{
    let x = b.bits;
    assert(flip_h_bits(flip_d_bits(flip_v_bits(flip_d_bits(x)))) == x && flip_h_bits(flip_v_bits(
        flip_h_bits(flip_v_bits(x)),
    )) == x) by (bit_vector);
}

} // verus!
