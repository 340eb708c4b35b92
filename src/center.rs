//! Centring a node at another depth: zooming in on the middle, or wrapping it
//! in empty borders.
use vstd::prelude::*;

use crate::block::Block;
use crate::node::{children_ok, depth_of, lemma_block_pop_zero, lemma_count_zero, pop_of, quad_pop_nodes, wf, Content, Engine, Node, MAX_DEPTH};
use crate::node::{alive, half_width_spec, in_square};
use crate::quad::{center_spec, DepthQuad, Quad};
use crate::semantics::{
    alive_blocks, alive_in, lemma_alive_inner, lemma_alive_leaf, lemma_expand_inner,
    lemma_expand_leaf, lemma_shrink_inner, lemma_shrink_leaf,
};
use crate::step::inner_buffered_spec;

verus! {

/// The four children of a well-formed inner node.
pub open spec fn kids(n: Node) -> Quad<Node> {
    match n.0.content {
        Content::Inner(_, q) => q,
        Content::Leaf(_) => arbitrary(),
    }
}

/// The four blocks of a leaf node.
pub open spec fn blocks(n: Node) -> Quad<Block> {
    match n.0.content {
        Content::Leaf(q) => q,
        Content::Inner(..) => arbitrary(),
    }
}

impl Quad<Block> {
    /// The 8x8 block at the middle of four blocks: the south-east quarter of
    /// `nw`, the south-west of `ne`, the north-east of `sw`, the north-west of
    /// `se`.
    pub fn center(&self) -> (r: Block)
        ensures
            r.bits == block_center_bits(*self),
    {
        let nw = (self.nw.bits & 0x00_00_00_00_0f_0f_0f_0f) << 36u64;
        let ne = (self.ne.bits & 0x00_00_00_00_f0_f0_f0_f0) << 28u64;
        let sw = (self.sw.bits & 0x0f_0f_0f_0f_00_00_00_00) >> 28u64;
        let se = (self.se.bits & 0xf0_f0_f0_f0_00_00_00_00) >> 36u64;
        Block::from_rows(nw | ne | sw | se)
    }

    /// Four leaf nodes, each holding one of the blocks at its inside corner.
    pub fn expand_nodes(&self, e: &mut Engine) -> (r: Quad<Node>)
        requires
            old(e).inv(),
        ensures
            children_ok(r, 0),
            final(e).inv(),
            self.nw.bits == 0 && self.ne.bits == 0 && self.sw.bits == 0 && self.se.bits == 0
                ==> quad_pop_nodes(r) == 0,
            forall|x: int, y: int| #[trigger] alive_in(r, 16, x, y) == alive_blocks(*self, x, y),
    {
        let z = Block::empty();
        proof {
            lemma_count_zero(64);
        }
        let nw = Node::new_leaf(e, Quad { nw: z, ne: z, sw: z, se: self.nw });
        let ne = Node::new_leaf(e, Quad { nw: z, ne: z, sw: self.ne, se: z });
        let sw = Node::new_leaf(e, Quad { nw: z, ne: self.sw, sw: z, se: z });
        let se = Node::new_leaf(e, Quad { nw: self.se, ne: z, sw: z, se: z });
        let r = Quad { nw, ne, sw, se };
        proof {
            assert forall|x: int, y: int| #[trigger] alive_in(r, 16, x, y) == alive_blocks(*self, x, y) by {
                lemma_expand_leaf(*self, r, x, y);
            }
        }
        r
    }
}

/// The bits of the middle block of four blocks.
pub open spec fn block_center_bits(q: Quad<Block>) -> u64 {
    ((q.nw.bits & 0x00_00_00_00_0f_0f_0f_0f) << 36u64) | ((q.ne.bits & 0x00_00_00_00_f0_f0_f0_f0)
        << 28u64) | ((q.sw.bits & 0x0f_0f_0f_0f_00_00_00_00) >> 28u64) | ((q.se.bits
        & 0xf0_f0_f0_f0_00_00_00_00) >> 36u64)
}

impl Block {
    /// Splits the block into four blocks, each quarter placed at the inside
    /// corner of its own block.
    pub fn expand(self) -> (r: Quad<Block>)
        ensures
            block_center_bits(r) == self.bits,
            r.nw.bits & !0x00_00_00_00_0f_0f_0f_0fu64 == 0,
            r.ne.bits & !0x00_00_00_00_f0_f0_f0_f0u64 == 0,
            r.sw.bits & !0x0f_0f_0f_0f_00_00_00_00u64 == 0,
            r.se.bits & !0xf0_f0_f0_f0_00_00_00_00u64 == 0,
    {
        let bits = self.bits;
        let nw = Block::from_rows((bits & 0xf0_f0_f0_f0_00_00_00_00) >> 36u64);
        let ne = Block::from_rows((bits & 0x0f_0f_0f_0f_00_00_00_00) >> 28u64);
        let sw = Block::from_rows((bits & 0x00_00_00_00_f0_f0_f0_f0) << 28u64);
        let se = Block::from_rows((bits & 0x00_00_00_00_0f_0f_0f_0f) << 36u64);
        assert(((((bits & 0xf0_f0_f0_f0_00_00_00_00) >> 36u64) & 0x00_00_00_00_0f_0f_0f_0f) << 36u64)
            | ((((bits & 0x0f_0f_0f_0f_00_00_00_00) >> 28u64) & 0x00_00_00_00_f0_f0_f0_f0) << 28u64)
            | ((((bits & 0x00_00_00_00_f0_f0_f0_f0) << 28u64) & 0x0f_0f_0f_0f_00_00_00_00) >> 28u64)
            | ((((bits & 0x00_00_00_00_0f_0f_0f_0f) << 36u64) & 0xf0_f0_f0_f0_00_00_00_00) >> 36u64)
            == bits && ((bits & 0xf0_f0_f0_f0_00_00_00_00) >> 36u64) & !0x00_00_00_00_0f_0f_0f_0fu64 == 0
            && ((bits & 0x0f_0f_0f_0f_00_00_00_00) >> 28u64) & !0x00_00_00_00_f0_f0_f0_f0u64 == 0 && ((
            bits & 0x00_00_00_00_f0_f0_f0_f0) << 28u64) & !0x0f_0f_0f_0f_00_00_00_00u64 == 0 && ((bits
            & 0x00_00_00_00_0f_0f_0f_0f) << 36u64) & !0xf0_f0_f0_f0_00_00_00_00u64 == 0) by (bit_vector);
        Quad { nw, ne, sw, se }
    }
}

impl Quad<Node> {
    /// Four nodes one level up, each holding one of these at its inside
    /// corner and empty nodes elsewhere.
    pub fn expand(&self, e: &mut Engine) -> (r: Quad<Node>)
        requires
            old(e).inv(),
            depth_of(self.nw) < MAX_DEPTH,
            children_ok(*self, depth_of(self.nw)),
        ensures
            children_ok(r, depth_of(self.nw) + 1),
            final(e).inv(),
            center_spec(quad_kids(r)) == *self,
            quad_pop_nodes(*self) == 0 ==> quad_pop_nodes(r) == 0,
            inner_buffered_spec(r),
            forall|x: int, y: int|
                #[trigger] alive_in(r, 2 * half_width_spec(depth_of(self.nw) + 1), x, y) == alive_in(
                    *self,
                    half_width_spec(depth_of(self.nw) + 1),
                    x,
                    y,
                ),
    {
        let d = self.nw.depth();
        let z = Node::empty(e, d);
        let nw = Node::new_inner(e, Quad { nw: z.dup(), ne: z.dup(), sw: z.dup(), se: self.nw.dup() });
        let ne = Node::new_inner(e, Quad { nw: z.dup(), ne: z.dup(), sw: self.ne.dup(), se: z.dup() });
        let sw = Node::new_inner(e, Quad { nw: z.dup(), ne: self.sw.dup(), sw: z.dup(), se: z.dup() });
        let se = Node::new_inner(e, Quad { nw: self.se.dup(), ne: z.dup(), sw: z.dup(), se: z });
        let r = Quad { nw, ne, sw, se };
        proof {
            assert forall|x: int, y: int|
                #[trigger] alive_in(r, 2 * half_width_spec(depth_of(self.nw) + 1), x, y) == alive_in(
                    *self,
                    half_width_spec(depth_of(self.nw) + 1),
                    x,
                    y,
                ) by {
                lemma_expand_inner(*self, r, x, y);
            }
        }
        r
    }

    /// The node centred on the meeting point of these four children, of depth
    /// `depth`: zooms in while `depth` is below theirs, wraps in empty borders
    /// while it is above.
    pub fn center_down(&self, e: &mut Engine, depth: u8) -> (r: Node)
        requires
            old(e).inv(),
            children_ok(*self, depth_of(self.nw)),
            depth <= depth_of(self.nw),
        ensures
            wf(r),
            depth_of(r) == depth,
            quad_pop_nodes(*self) == 0 ==> pop_of(r) == 0,
            final(e).inv(),
            forall|x: int, y: int|
                in_square(half_width_spec(depth as nat), x, y) ==> #[trigger] alive(r, x, y)
                    == alive_in(*self, half_width_spec(depth_of(self.nw) + 1), x, y),
        decreases depth_of(self.nw),
    {
        let cd = self.nw.depth();
        match (&self.nw.0.content, &self.ne.0.content, &self.sw.0.content, &self.se.0.content) {
            (Content::Leaf(a), Content::Leaf(b), Content::Leaf(c), Content::Leaf(d)) => {
                let r = Node::new_leaf(e, Quad { nw: a.se, ne: b.sw, sw: c.ne, se: d.nw });
                proof {
                    vstd::arithmetic::power2::lemma2_to64();
                    assert forall|x: int, y: int|
                        in_square(half_width_spec(depth as nat), x, y) implies #[trigger] alive(r, x, y)
                            == alive_in(*self, half_width_spec(depth_of(self.nw) + 1), x, y) by {
                        lemma_shrink_leaf(*self, x, y);
                        lemma_alive_leaf(r, x, y);
                    }
                }
                r
            },
            (
                Content::Inner(_, a),
                Content::Inner(_, b),
                Content::Inner(_, c),
                Content::Inner(_, d),
            ) => {
                let q = Quad { nw: a.se.dup(), ne: b.sw.dup(), sw: c.ne.dup(), se: d.nw.dup() };
                proof {
                    assert(wf(self.nw) && wf(self.ne) && wf(self.sw) && wf(self.se));
                    assert(children_ok(*a, (cd - 1) as nat));
                    assert(children_ok(*b, (cd - 1) as nat));
                    assert(children_ok(*c, (cd - 1) as nat));
                    assert(children_ok(*d, (cd - 1) as nat));
                    assert(children_ok(q, (cd - 1) as nat));
                }
                let r = if cd == depth {
                    Node::new_depth_inner(e, cd, q)
                } else {
                    q.center_down(e, depth)
                };
                proof {
                    vstd::arithmetic::power2::lemma_pow2_unfold(depth as nat + 3);
                    assert(q == center_spec(quad_kids(*self)));
                    assert forall|x: int, y: int|
                        in_square(half_width_spec(depth as nat), x, y) implies #[trigger] alive(r, x, y)
                            == alive_in(*self, half_width_spec(depth_of(self.nw) + 1), x, y) by {
                        if depth < cd {
                            lemma_pow2_le(depth as nat + 3, cd as nat + 3);
                        }
                        assert(in_square(half_width_spec(cd as nat), x, y));
                        lemma_shrink_inner(*self, x, y);
                        if cd == depth {
                            lemma_alive_inner(r, x, y);
                        } else {
                            assert(depth_of(q.nw) + 1 == cd);
                            assert(alive(r, x, y) == alive_in(q, half_width_spec(depth_of(q.nw) + 1), x, y));
                        }
                    }
                }
                r
            },
            _ => {
                proof {
                    assert(false);
                }
                Node::empty(e, depth)
            },
        }
    }

    /// The inner node of these children, wrapped in empty borders up to
    /// depth `depth`.
    fn center_up(self, e: &mut Engine, depth: u8) -> (r: Node)
        requires
            old(e).inv(),
            children_ok(self, depth_of(self.nw)),
            depth_of(self.nw) < depth <= MAX_DEPTH,
        ensures
            wf(r),
            depth_of(r) == depth,
            quad_pop_nodes(self) == 0 ==> pop_of(r) == 0,
            final(e).inv(),
            forall|x: int, y: int|
                #[trigger] alive(r, x, y) == alive_in(self, half_width_spec(depth_of(self.nw) + 1), x, y),
        decreases depth - depth_of(self.nw),
    {
        let cd = self.nw.depth();
        let ghost s = self;
        if cd + 1 == depth {
            let r = Node::new_inner(e, self);
            proof {
                assert forall|x: int, y: int|
                    #[trigger] alive(r, x, y) == alive_in(s, half_width_spec(depth_of(s.nw) + 1), x, y) by {
                    lemma_alive_inner(r, x, y);
                }
            }
            r
        } else {
            let q = self.expand(e);
            proof {
                vstd::arithmetic::power2::lemma_pow2_unfold(cd as nat + 5);
            }
            q.center_up(e, depth)
        }
    }
}

/// `2^a <= 2^b` for `a <= b`.
pub proof fn lemma_pow2_le(a: nat, b: nat)
    requires
        a <= b,
    ensures
        vstd::arithmetic::power2::pow2(a) <= vstd::arithmetic::power2::pow2(b),
{
    if a < b {
        vstd::arithmetic::power2::lemma_pow2_strictly_increases(a, b);
    }
}

/// The children of four nodes, as a quad of quads.
pub open spec fn quad_kids(q: Quad<Node>) -> Quad<Quad<Node>> {
    Quad { nw: kids(q.nw), ne: kids(q.ne), sw: kids(q.sw), se: kids(q.se) }
}

impl Node {
    /// This node one level up, centred in an empty border.
    pub fn expand(&self, e: &mut Engine) -> (r: Node)
        requires
            old(e).inv(),
            wf(*self),
            depth_of(*self) < MAX_DEPTH,
        ensures
            wf(r),
            depth_of(r) == depth_of(*self) + 1,
            final(e).inv(),
            pop_of(*self) == 0 ==> pop_of(r) == 0,
            forall|x: int, y: int| #[trigger] alive(r, x, y) == alive(*self, x, y),
    {
        let q = self.expand_quad(e);
        let r = Node::new_inner(e, q);
        proof {
            assert forall|x: int, y: int| #[trigger] alive(r, x, y) == alive(*self, x, y) by {
                lemma_alive_inner(r, x, y);
            }
        }
        r
    }

    /// The four children of [`Node::expand`].
    pub fn expand_quad(&self, e: &mut Engine) -> (r: Quad<Node>)
        requires
            old(e).inv(),
            wf(*self),
            depth_of(*self) < MAX_DEPTH,
        ensures
            children_ok(r, depth_of(*self)),
            final(e).inv(),
            pop_of(*self) == 0 ==> quad_pop_nodes(r) == 0,
            forall|x: int, y: int|
                #[trigger] alive_in(r, half_width_spec(depth_of(*self) + 1), x, y) == alive(*self, x, y),
    {
        proof {
            vstd::arithmetic::power2::lemma2_to64();
            vstd::arithmetic::power2::lemma_pow2_unfold(depth_of(*self) + 4);
        }
        match &self.0.content {
            Content::Leaf(q) => {
                proof {
                    if pop_of(*self) == 0 {
                        lemma_block_pop_zero(q.nw);
                        lemma_block_pop_zero(q.ne);
                        lemma_block_pop_zero(q.sw);
                        lemma_block_pop_zero(q.se);
                    }
                }
                let r = q.expand_nodes(e);
                proof {
                    assert forall|x: int, y: int|
                        #[trigger] alive_in(r, half_width_spec(depth_of(*self) + 1), x, y) == alive(*self, x, y) by {
                        lemma_alive_leaf(*self, x, y);
                        assert(alive_in(r, 16, x, y) == alive_blocks(*q, x, y));
                    }
                }
                r
            },
            Content::Inner(d, q) => {
                let r = q.expand(e);
                proof {
                    assert(children_ok(*q, (*d - 1) as nat));
                    assert forall|x: int, y: int|
                        #[trigger] alive_in(r, half_width_spec(depth_of(*self) + 1), x, y) == alive(*self, x, y) by {
                        lemma_alive_inner(*self, x, y);
                        assert(alive_in(r, 2 * half_width_spec(depth_of(q.nw) + 1), x, y) == alive_in(
                            *q,
                            half_width_spec(depth_of(q.nw) + 1),
                            x,
                            y,
                        ));
                    }
                }
                r
            },
        }
    }

    /// The node of depth `depth` centred on the same origin: the middle of
    /// this node when `depth` is smaller, this node in an empty border when it
    /// is larger, and this node itself when it is equal.
    pub fn center_at_depth(&self, e: &mut Engine, depth: u8) -> (r: Node)
        requires
            old(e).inv(),
            wf(*self),
            depth <= MAX_DEPTH,
        ensures
            wf(r),
            depth_of(r) == depth,
            depth == depth_of(*self) ==> r == *self,
            final(e).inv(),
            pop_of(*self) == 0 ==> pop_of(r) == 0,
            depth >= depth_of(*self) ==> forall|x: int, y: int| #[trigger] alive(r, x, y) == alive(*self, x, y),
            forall|x: int, y: int|
                in_square(half_width_spec(depth as nat), x, y) ==> #[trigger] alive(r, x, y) == alive(*self, x, y),
    {
        let d = self.depth();
        if d == depth {
            self.dup()
        } else if d < depth {
            match &self.0.content {
                Content::Leaf(q) => {
                    proof {
                        if pop_of(*self) == 0 {
                            lemma_block_pop_zero(q.nw);
                            lemma_block_pop_zero(q.ne);
                            lemma_block_pop_zero(q.sw);
                            lemma_block_pop_zero(q.se);
                        }
                    }
                    let k = q.expand_nodes(e);
                    let r = k.center_up(e, depth);
                    proof {
                        vstd::arithmetic::power2::lemma2_to64();
                        assert(half_width_spec(depth_of(k.nw) + 1) == 16);
                        assert forall|x: int, y: int| #[trigger] alive(r, x, y) == alive(*self, x, y) by {
                            lemma_alive_leaf(*self, x, y);
                            assert(alive(r, x, y) == alive_in(k, half_width_spec(depth_of(k.nw) + 1), x, y));
                            assert(alive_in(k, 16, x, y) == alive_blocks(*q, x, y));
                        }
                    }
                    r
                },
                Content::Inner(_, q) => {
                    let k = Quad { nw: q.nw.dup(), ne: q.ne.dup(), sw: q.sw.dup(), se: q.se.dup() };
                    let r = k.center_up(e, depth);
                    proof {
                        assert(k == kids(*self));
                        assert(depth_of(k.nw) + 1 == d);
                        assert forall|x: int, y: int| #[trigger] alive(r, x, y) == alive(*self, x, y) by {
                            lemma_alive_inner(*self, x, y);
                            assert(alive(r, x, y) == alive_in(k, half_width_spec(depth_of(k.nw) + 1), x, y));
                        }
                    }
                    r
                },
            }
        } else {
            match &self.0.content {
                Content::Inner(_, q) => {
                    let r = q.center_down(e, depth);
                    proof {
                        assert forall|x: int, y: int|
                            in_square(half_width_spec(depth as nat), x, y) implies #[trigger] alive(r, x, y)
                                == alive(*self, x, y) by {
                            lemma_alive_inner(*self, x, y);
                        }
                    }
                    r
                },
                Content::Leaf(_) => {
                    proof {
                        assert(false);
                    }
                    self.dup()
                },
            }
        }
    }
}

} // verus!
