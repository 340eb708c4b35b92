//! Cellwise union and symmetric difference of two universes.
use vstd::prelude::*;

use crate::block::Block;
use crate::node::{alive, children_ok, depth_of, in_square, pop_of, wf, Content, Engine, Node};
use crate::pos::re_center_spec;
use crate::quad::quadrant_of;
use crate::semantics::{lemma_alive_inner, lemma_alive_leaf, lemma_empty_dead};
use crate::quad::Quad;

verus! {

impl Block {
    /// The cells alive in either block.
    pub fn bitor(self, rhs: Block) -> (r: Block)
        ensures
            r.bits == self.bits | rhs.bits,
    {
        Block::from_rows(self.bits | rhs.bits)
    }

    /// The cells alive in exactly one block.
    pub fn bitxor(self, rhs: Block) -> (r: Block)
        ensures
            r.bits == self.bits ^ rhs.bits,
    {
        Block::from_rows(self.bits ^ rhs.bits)
    }
}

pub open spec fn max_nat(a: nat, b: nat) -> nat {
    if a >= b {
        a
    } else {
        b
    }
}

impl Node {
    /// The union of two universes, both centred on the origin; the shallower
    /// is first centred at the depth of the deeper.
    pub fn or(&self, e: &mut Engine, rhs: &Node) -> (r: Node)
        requires
            old(e).inv(),
            wf(*self),
            wf(*rhs),
        ensures
            final(e).inv(),
            wf(r),
            forall|x: int, y: int| #[trigger] alive(r, x, y) == (alive(*self, x, y) || alive(*rhs, x, y)),
            depth_of(r) == max_nat(depth_of(*self), depth_of(*rhs)),
            pop_of(*self) == 0 && depth_of(*self) <= depth_of(*rhs) ==> r == *rhs,
            pop_of(*rhs) == 0 && pop_of(*self) != 0 && depth_of(*rhs) <= depth_of(*self) ==> r
                == *self,
            pop_of(*self) == 0 && pop_of(*rhs) == 0 ==> pop_of(r) == 0,
    {
        if self.depth() > rhs.depth() {
            let c = rhs.center_at_depth(e, self.depth());
            self.bitor_impl(e, &c)
        } else {
            let c = self.center_at_depth(e, rhs.depth());
            c.bitor_impl(e, rhs)
        }
    }

    /// The union of two universes of one depth.
    fn bitor_impl(&self, e: &mut Engine, rhs: &Node) -> (r: Node)
        requires
            old(e).inv(),
            wf(*self),
            wf(*rhs),
            depth_of(*self) == depth_of(*rhs),
        ensures
            final(e).inv(),
            wf(r),
            depth_of(r) == depth_of(*self),
            forall|x: int, y: int| #[trigger] alive(r, x, y) == (alive(*self, x, y) || alive(*rhs, x, y)),
            pop_of(*self) == 0 ==> r == *rhs,
            pop_of(*rhs) == 0 && pop_of(*self) != 0 ==> r == *self,
            pop_of(*self) == 0 && pop_of(*rhs) == 0 ==> pop_of(r) == 0,
        decreases *self,
    {
        if self.is_empty() {
            proof {
                assert forall|x: int, y: int| !alive(*self, x, y) by {
                    lemma_empty_dead(*self, x, y);
                }
            }
            rhs.dup()
        } else if rhs.is_empty() {
            proof {
                assert forall|x: int, y: int| !alive(*rhs, x, y) by {
                    lemma_empty_dead(*rhs, x, y);
                }
            }
            self.dup()
        } else {
            match (&self.0.content, &rhs.0.content) {
                (Content::Leaf(a), Content::Leaf(b)) => {
                    let r = Node::new_leaf(
                        e,
                        Quad {
                            nw: a.nw.bitor(b.nw),
                            ne: a.ne.bitor(b.ne),
                            sw: a.sw.bitor(b.sw),
                            se: a.se.bitor(b.se),
                        },
                    );
                    proof {
                        assert forall|x: int, y: int|
                            #[trigger] alive(r, x, y) == (alive(*self, x, y) || alive(*rhs, x, y)) by {
                            lemma_alive_leaf(r, x, y);
                            lemma_alive_leaf(*self, x, y);
                            lemma_alive_leaf(*rhs, x, y);
                            if in_square(4, re_center_spec(x, 4), re_center_spec(y, 4)) {
                                let k = (63 - ((re_center_spec(y, 4) + 4) * 8 + re_center_spec(x, 4) + 4)) as u64;
                                let p = a.at(quadrant_of(x, y)).bits;
                                let q = b.at(quadrant_of(x, y)).bits;
                                assert(k < 64 ==> (((p | q) >> k) & 1 == 1) == ((((p >> k) & 1) == 1) || (((q >> k) & 1) == 1))) by (bit_vector);
                            }
                        }
                    }
                    r
                },
                (Content::Inner(d, a), Content::Inner(_, b)) => {
                    proof {
                        assert(children_ok(*a, (*d - 1) as nat));
                        assert(children_ok(*b, (*d - 1) as nat));
                    }
                    let nw = a.nw.bitor_impl(e, &b.nw);
                    let ne = a.ne.bitor_impl(e, &b.ne);
                    let sw = a.sw.bitor_impl(e, &b.sw);
                    let se = a.se.bitor_impl(e, &b.se);
                    let r = Node::new_depth_inner(e, *d, Quad { nw, ne, sw, se });
                    proof {
                        assert forall|x: int, y: int|
                            #[trigger] alive(r, x, y) == (alive(*self, x, y) || alive(*rhs, x, y)) by {
                            lemma_alive_inner(r, x, y);
                            lemma_alive_inner(*self, x, y);
                            lemma_alive_inner(*rhs, x, y);
                        }
                    }
                    r
                },
                _ => {
                    proof {
                        assert(false);
                    }
                    self.dup()
                },
            }
        }
    }

    /// The symmetric difference of two universes, both centred on the
    /// origin; the shallower is first centred at the depth of the deeper.
    pub fn xor(&self, e: &mut Engine, rhs: &Node) -> (r: Node)
        requires
            old(e).inv(),
            wf(*self),
            wf(*rhs),
        ensures
            final(e).inv(),
            wf(r),
            forall|x: int, y: int| #[trigger] alive(r, x, y) == (alive(*self, x, y) != alive(*rhs, x, y)),
            depth_of(r) == max_nat(depth_of(*self), depth_of(*rhs)),
            pop_of(*self) == 0 && depth_of(*self) <= depth_of(*rhs) ==> r == *rhs,
            pop_of(*rhs) == 0 && pop_of(*self) != 0 && depth_of(*rhs) <= depth_of(*self) ==> r
                == *self,
            pop_of(*self) == 0 && pop_of(*rhs) == 0 ==> pop_of(r) == 0,
    {
        if self.depth() > rhs.depth() {
            let c = rhs.center_at_depth(e, self.depth());
            self.bitxor_impl(e, &c)
        } else {
            let c = self.center_at_depth(e, rhs.depth());
            c.bitxor_impl(e, rhs)
        }
    }

    /// The symmetric difference of two universes of one depth.
    fn bitxor_impl(&self, e: &mut Engine, rhs: &Node) -> (r: Node)
        requires
            old(e).inv(),
            wf(*self),
            wf(*rhs),
            depth_of(*self) == depth_of(*rhs),
        ensures
            final(e).inv(),
            wf(r),
            depth_of(r) == depth_of(*self),
            forall|x: int, y: int| #[trigger] alive(r, x, y) == (alive(*self, x, y) != alive(*rhs, x, y)),
            pop_of(*self) == 0 ==> r == *rhs,
            pop_of(*rhs) == 0 && pop_of(*self) != 0 ==> r == *self,
            pop_of(*self) == 0 && pop_of(*rhs) == 0 ==> pop_of(r) == 0,
        decreases *self,
    {
        if self.is_empty() {
            proof {
                assert forall|x: int, y: int| !alive(*self, x, y) by {
                    lemma_empty_dead(*self, x, y);
                }
            }
            rhs.dup()
        } else if rhs.is_empty() {
            proof {
                assert forall|x: int, y: int| !alive(*rhs, x, y) by {
                    lemma_empty_dead(*rhs, x, y);
                }
            }
            self.dup()
        } else {
            match (&self.0.content, &rhs.0.content) {
                (Content::Leaf(a), Content::Leaf(b)) => {
                    let r = Node::new_leaf(
                        e,
                        Quad {
                            nw: a.nw.bitxor(b.nw),
                            ne: a.ne.bitxor(b.ne),
                            sw: a.sw.bitxor(b.sw),
                            se: a.se.bitxor(b.se),
                        },
                    );
                    proof {
                        assert forall|x: int, y: int|
                            #[trigger] alive(r, x, y) == (alive(*self, x, y) != alive(*rhs, x, y)) by {
                            lemma_alive_leaf(r, x, y);
                            lemma_alive_leaf(*self, x, y);
                            lemma_alive_leaf(*rhs, x, y);
                            if in_square(4, re_center_spec(x, 4), re_center_spec(y, 4)) {
                                let k = (63 - ((re_center_spec(y, 4) + 4) * 8 + re_center_spec(x, 4) + 4)) as u64;
                                let p = a.at(quadrant_of(x, y)).bits;
                                let q = b.at(quadrant_of(x, y)).bits;
                                assert(k < 64 ==> (((p ^ q) >> k) & 1 == 1) == ((((p >> k) & 1) == 1) != (((q >> k) & 1) == 1))) by (bit_vector);
                            }
                        }
                    }
                    r
                },
                (Content::Inner(d, a), Content::Inner(_, b)) => {
                    proof {
                        assert(children_ok(*a, (*d - 1) as nat));
                        assert(children_ok(*b, (*d - 1) as nat));
                    }
                    let nw = a.nw.bitxor_impl(e, &b.nw);
                    let ne = a.ne.bitxor_impl(e, &b.ne);
                    let sw = a.sw.bitxor_impl(e, &b.sw);
                    let se = a.se.bitxor_impl(e, &b.se);
                    let r = Node::new_depth_inner(e, *d, Quad { nw, ne, sw, se });
                    proof {
                        assert forall|x: int, y: int|
                            #[trigger] alive(r, x, y) == (alive(*self, x, y) != alive(*rhs, x, y)) by {
                            lemma_alive_inner(r, x, y);
                            lemma_alive_inner(*self, x, y);
                            lemma_alive_inner(*rhs, x, y);
                        }
                    }
                    r
                },
                _ => {
                    proof {
                        assert(false);
                    }
                    self.dup()
                },
            }
        }
    }
}

} // verus!
