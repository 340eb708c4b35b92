//! Shaking off empty borders: finding a smaller node that holds every live
//! cell, and where its origin lies.
use vstd::prelude::*;

use crate::center::kids;
use crate::clip::lemma_alive_in_square;
use crate::node::{
    alive, children_ok, depth_of, half_width_spec, in_square, pop_of, wf, Content, Engine, Node,
};
use crate::pos::re_center_spec;
use crate::quad::quadrant_of;
use crate::semantics::{lemma_alive_inner, lemma_empty_dead, shifted};
use crate::pos::Pos;
use crate::quad::Quadrant;
use crate::step::inner_buffered_spec;

verus! {

impl Node {
    /// A node of depth at most this one's, and the position of its origin
    /// in this node's coordinates: while only one child holds live cells the
    /// search moves into that child, and while every live cell lies in the
    /// middle half it moves into the middle.
    pub fn offset_norm(&self, e: &mut Engine) -> (r: (Pos, Node))
        requires
            old(e).inv(),
            wf(*self),
        ensures
            final(e).inv(),
            wf(r.1),
            depth_of(r.1) <= depth_of(*self),
            -half_width_spec(depth_of(*self)) < r.0.x < half_width_spec(depth_of(*self)),
            -half_width_spec(depth_of(*self)) < r.0.y < half_width_spec(depth_of(*self)),
            pop_of(*self) == 0 ==> r.1 == *self,
            shifted(r.1, r.0, *self),
            pop_of(*self) != 0 && depth_of(*self) >= 1 && (one_child_filled(*self) || (depth_of(*self) >= 2
                && inner_buffered_spec(kids(*self)))) ==> depth_of(r.1) < depth_of(*self),
        decreases depth_of(*self),
    {
        proof {
            vstd::arithmetic::power2::lemma_pow2_pos((depth_of(*self) + 3) as nat);
        }
        if self.is_empty() {
            return (Pos::new(0, 0), self.dup());
        }
        let q = match &self.0.content {
            Content::Leaf(_) => {
                return (Pos::new(0, 0), self.dup());
            },
            Content::Inner(_, q) => q,
        };
        let d = self.depth();
        proof {
            assert(children_ok(*q, (d - 1) as nat));
            vstd::arithmetic::power2::lemma_pow2_unfold((d + 3) as nat);
            vstd::arithmetic::power2::lemma_pow2_unfold((d + 2) as nat);
            vstd::arithmetic::power2::lemma_pow2_pos((d + 1) as nat);
            vstd::arithmetic::power2::lemma_pow2_strictly_increases((d + 3) as nat, 63);
            vstd::arithmetic::power2::lemma2_to64_rest();
        }
        let full = (!q.nw.is_empty() as u8) + (!q.ne.is_empty() as u8) + (!q.sw.is_empty() as u8)
            + (!q.se.is_empty() as u8);
        if full == 1 {
            let (quadrant, child) = if !q.nw.is_empty() {
                (Quadrant::NW, &q.nw)
            } else if !q.ne.is_empty() {
                (Quadrant::NE, &q.ne)
            } else if !q.sw.is_empty() {
                (Quadrant::SW, &q.sw)
            } else {
                (Quadrant::SE, &q.se)
            };
            let h = child.half_width();
            let (pos, node) = child.offset_norm(e);
            assert(h == half_width_spec((d - 1) as nat));
            let at = Pos::in_dir(quadrant, h);
            let res = Pos::new(at.x + pos.x, at.y + pos.y);
            proof {
                assert(*child == q.at(quadrant));
                assert forall|p: Quadrant| p != quadrant implies pop_of(#[trigger] q.at(p)) == 0 by {}
                assert forall|x: int, y: int| #[trigger] alive(*self, x, y) == alive(node, x - res.x, y - res.y) by {
                    lemma_alive_inner(*self, x, y);
                    let u = x - at.x;
                    let v = y - at.y;
                    assert(alive(*child, u, v) == alive(node, u - pos.x, v - pos.y));
                    if alive(*child, u, v) {
                        lemma_alive_in_square(*child, u, v);
                    }
                    let other = q.at(quadrant_of(x, y));
                    if other != *child {
                        lemma_empty_dead(other, re_center_spec(x, h as int), re_center_spec(y, h as int));
                    }
                }
            }
            return (res, node);
        }
        if d >= 2 && self.buffered() {
            let center = self.center_at_depth(e, d - 1);
            let r = center.offset_norm(e);
            proof {
                assert forall|x: int, y: int| #[trigger] alive(*self, x, y) == alive(r.1, x - r.0.x, y - r.0.y) by {
                    assert(alive(center, x, y) == alive(r.1, x - r.0.x, y - r.0.y));
                    if !in_square(half_width_spec((d - 1) as nat), x, y) {
                        lemma_buffered_border(*self, x, y);
                        if alive(center, x, y) {
                            lemma_alive_in_square(center, x, y);
                        }
                    }
                }
            }
            return r;
        }
        (Pos::new(0, 0), self.dup())
    }

    /// Whether the twelve outer grandchildren of this node (depth at least
    /// 2) are empty.
    pub fn buffered(&self) -> (r: bool)
        requires
            wf(*self),
            depth_of(*self) >= 2,
        ensures
            r == inner_buffered_spec(crate::center::kids(*self)),
    {
        match &self.0.content {
            Content::Inner(d, q) => {
                proof {
                    assert(children_ok(*q, (*d - 1) as nat));
                    assert(wf(q.nw) && wf(q.ne) && wf(q.sw) && wf(q.se));
                }
                match (&q.nw.0.content, &q.ne.0.content, &q.sw.0.content, &q.se.0.content) {
                    (
                        Content::Inner(_, a),
                        Content::Inner(_, b),
                        Content::Inner(_, c),
                        Content::Inner(_, dd),
                    ) => {
                        proof {
                            assert(children_ok(*a, (*d - 2) as nat));
                            assert(children_ok(*b, (*d - 2) as nat));
                            assert(children_ok(*c, (*d - 2) as nat));
                            assert(children_ok(*dd, (*d - 2) as nat));
                        }
                        a.nw.is_empty() && a.ne.is_empty() && a.sw.is_empty() && b.nw.is_empty()
                            && b.ne.is_empty() && b.se.is_empty() && c.nw.is_empty()
                            && c.sw.is_empty() && c.se.is_empty() && dd.ne.is_empty()
                            && dd.sw.is_empty() && dd.se.is_empty()
                    },
                    _ => {
                        proof {
                            assert(false);
                        }
                        false
                    },
                }
            },
            Content::Leaf(_) => false,
        }
    }
}

/// Whether exactly one child of an inner node holds live cells.
pub open spec fn one_child_filled(n: Node) -> bool {
    let q = kids(n);
    one_if(pop_of(q.nw) != 0) + one_if(pop_of(q.ne) != 0) + one_if(pop_of(q.sw) != 0) + one_if(
        pop_of(q.se) != 0,
    ) == 1
}

/// 1 when `b` holds, else 0.
pub open spec fn one_if(b: bool) -> int {
    if b {
        1
    } else {
        0
    }
}

/// A node whose twelve outer grandchildren are empty has no live cell
/// outside its middle half.
pub proof fn lemma_buffered_border(n: Node, x: int, y: int)
    requires
        wf(n),
        depth_of(n) >= 2,
        inner_buffered_spec(kids(n)),
        !in_square(half_width_spec((depth_of(n) - 1) as nat), x, y),
    ensures
        !alive(n, x, y),
{
    let d = depth_of(n);
    let q = kids(n);
    assert(children_ok(q, (d - 1) as nat));
    assert(wf(q.nw) && wf(q.ne) && wf(q.sw) && wf(q.se));
    assert(children_ok(kids(q.nw), (d - 2) as nat));
    assert(children_ok(kids(q.ne), (d - 2) as nat));
    assert(children_ok(kids(q.sw), (d - 2) as nat));
    assert(children_ok(kids(q.se), (d - 2) as nat));
    let h = half_width_spec(d as nat);
    vstd::arithmetic::power2::lemma_pow2_unfold(d + 3);
    vstd::arithmetic::power2::lemma_pow2_unfold(d + 2);
    vstd::arithmetic::power2::lemma_pow2_pos(d + 1);
    lemma_alive_inner(n, x, y);
    if in_square(h, x, y) {
        let c = q.at(quadrant_of(x, y));
        let x1 = re_center_spec(x, h / 2);
        let y1 = re_center_spec(y, h / 2);
        lemma_alive_inner(c, x1, y1);
        let g = kids(c).at(quadrant_of(x1, y1));
        lemma_empty_dead(g, re_center_spec(x1, h / 4), re_center_spec(y1, h / 4));
    }
}

} // verus!
