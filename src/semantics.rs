//! What a node means: the set of its live cells, and the lemmas that carry
//! it through centring and expansion.
use vstd::prelude::*;

use crate::block::Block;
use crate::center::{blocks, kids, quad_kids};
use crate::step::inner_buffered_spec;
use crate::node::{
    alive, block_alive, children_ok, depth_of, half_width_spec, in_square, lemma_block_pop_zero,
    pop_of, wf, Content, Node,
};
use crate::pos::re_center_spec;
use crate::quad::{center_spec, quadrant_of, Quad};

verus! {

/// Whether cell `(x, y)` is alive in the square of half width `h` made of
/// the four nodes `q`.
pub open spec fn alive_in(q: Quad<Node>, h: int, x: int, y: int) -> bool {
    in_square(h, x, y) && alive(
        q.at(quadrant_of(x, y)),
        re_center_spec(x, h / 2),
        re_center_spec(y, h / 2),
    )
}

/// Whether cell `(x, y)` is alive in the square of half width 8 made of the
/// four blocks `q`.
pub open spec fn alive_blocks(q: Quad<Block>, x: int, y: int) -> bool {
    in_square(8, x, y) && block_alive(
        q.at(quadrant_of(x, y)),
        re_center_spec(x, 4),
        re_center_spec(y, 4),
    )
}

/// A block with no bit set has no live cell.
pub proof fn lemma_zero_block_dead(b: Block, x: int, y: int)
    requires
        b.bits == 0,
    ensures
        !block_alive(b, x, y),
{
    if in_square(4, x, y) {
        let k = (63 - ((y + 4) * 8 + x + 4)) as u64;
        assert((0u64 >> k) & 1 == 0) by (bit_vector);
    }
}

/// A node with no live cell, by count, has no live cell anywhere.
pub proof fn lemma_empty_dead(n: Node, x: int, y: int)
    requires
        wf(n),
        pop_of(n) == 0,
    ensures
        !alive(n, x, y),
    decreases n,
{
    match n.0.content {
        Content::Leaf(q) => {
            lemma_block_pop_zero(q.nw);
            lemma_block_pop_zero(q.ne);
            lemma_block_pop_zero(q.sw);
            lemma_block_pop_zero(q.se);
            lemma_zero_block_dead(q.at(quadrant_of(x, y)), re_center_spec(x, 4), re_center_spec(y, 4));
        },
        Content::Inner(d, q) => {
            assert(children_ok(q, (d - 1) as nat));
            let h = half_width_spec(d as nat);
            let c = q.at(quadrant_of(x, y));
            lemma_empty_dead(c, re_center_spec(x, h / 2), re_center_spec(y, h / 2));
        },
    }
}

/// An inner node's cells are those of its four children.
pub proof fn lemma_alive_inner(n: Node, x: int, y: int)
    requires
        n.0.content is Inner,
    ensures
        alive(n, x, y) == alive_in(kids(n), half_width_spec(depth_of(n)), x, y),
{
}

/// A leaf's cells are those of its four blocks.
pub proof fn lemma_alive_leaf(n: Node, x: int, y: int)
    requires
        n.0.content is Leaf,
    ensures
        alive(n, x, y) == alive_blocks(blocks(n), x, y),
{
}

/// Four nodes one level up, holding `q` at their inside corners and empty
/// nodes elsewhere, keep the cells of `q` in a square twice as wide.
pub proof fn lemma_expand_inner(q: Quad<Node>, r: Quad<Node>, x: int, y: int)
    requires
        children_ok(q, depth_of(q.nw)),
        children_ok(r, depth_of(q.nw) + 1),
        center_spec(quad_kids(r)) == q,
        inner_buffered_spec(r),
    ensures
        alive_in(r, 2 * half_width_spec(depth_of(q.nw) + 1), x, y) == alive_in(
            q,
            half_width_spec(depth_of(q.nw) + 1),
            x,
            y,
        ),
{
    let c = depth_of(q.nw);
    let h = half_width_spec(c + 1);
    vstd::arithmetic::power2::lemma_pow2_unfold(c + 4);
    assert(h == 2 * half_width_spec(c));
    assert(wf(r.nw) && wf(r.ne) && wf(r.sw) && wf(r.se));
    assert(children_ok(kids(r.nw), c));
    assert(children_ok(kids(r.ne), c));
    assert(children_ok(kids(r.sw), c));
    assert(children_ok(kids(r.se), c));
    let qq = quadrant_of(x, y);
    let child = r.at(qq);
    let x1 = re_center_spec(x, h);
    let y1 = re_center_spec(y, h);
    assert(2 * h / 2 == h);
    if in_square(2 * h, x, y) {
        lemma_alive_inner(child, x1, y1);
        let g = kids(child).at(quadrant_of(x1, y1));
        let x2 = re_center_spec(x1, h / 2);
        let y2 = re_center_spec(y1, h / 2);
        if !in_square(h, x, y) {
            lemma_empty_dead(g, x2, y2);
        } else {
            assert(g == q.at(qq));
        }
    }
}

/// Four leaves holding the blocks of `q` at their inside corners and empty
/// blocks elsewhere keep the cells of the leaf of `q` in a square twice as
/// wide.
pub proof fn lemma_expand_leaf(q: Quad<Block>, r: Quad<Node>, x: int, y: int)
    requires
        children_ok(r, 0),
        blocks(r.nw) == (Quad { nw: Block { bits: 0 }, ne: Block { bits: 0 }, sw: Block { bits: 0 }, se: q.nw }),
        blocks(r.ne) == (Quad { nw: Block { bits: 0 }, ne: Block { bits: 0 }, sw: q.ne, se: Block { bits: 0 } }),
        blocks(r.sw) == (Quad { nw: Block { bits: 0 }, ne: q.sw, sw: Block { bits: 0 }, se: Block { bits: 0 } }),
        blocks(r.se) == (Quad { nw: q.se, ne: Block { bits: 0 }, sw: Block { bits: 0 }, se: Block { bits: 0 } }),
    ensures
        alive_in(r, 16, x, y) == alive_blocks(q, x, y),
{
    let qq = quadrant_of(x, y);
    let child = r.at(qq);
    let x1 = re_center_spec(x, 8);
    let y1 = re_center_spec(y, 8);
    if in_square(16, x, y) {
        assert(child.0.content is Leaf);
        lemma_alive_leaf(child, x1, y1);
        let b = blocks(child).at(quadrant_of(x1, y1));
        let x2 = re_center_spec(x1, 4);
        let y2 = re_center_spec(y1, 4);
        if !in_square(8, x, y) {
            lemma_zero_block_dead(b, x2, y2);
        } else {
            assert(b == q.at(qq));
        }
    }
}

/// Inside the middle half, the cells of four nodes are those of the quad of
/// their inner grandchildren.
pub proof fn lemma_shrink_inner(s: Quad<Node>, x: int, y: int)
    requires
        children_ok(s, depth_of(s.nw)),
        depth_of(s.nw) >= 1,
        in_square(half_width_spec(depth_of(s.nw)), x, y),
    ensures
        alive_in(s, half_width_spec(depth_of(s.nw) + 1), x, y) == alive_in(
            center_spec(quad_kids(s)),
            half_width_spec(depth_of(s.nw)),
            x,
            y,
        ),
{
    let c = depth_of(s.nw);
    let h = half_width_spec(c);
    vstd::arithmetic::power2::lemma_pow2_unfold(c + 4);
    vstd::arithmetic::power2::lemma_pow2_unfold(c + 3);
    assert(half_width_spec(c + 1) == 2 * h);
    assert(wf(s.nw) && wf(s.ne) && wf(s.sw) && wf(s.se));
    let qq = quadrant_of(x, y);
    let child = s.at(qq);
    let x1 = re_center_spec(x, h);
    let y1 = re_center_spec(y, h);
    assert(2 * h / 2 == h);
    lemma_alive_inner(child, x1, y1);
}

/// Inside the middle half, the cells of four leaves are those of the leaf
/// of their inner blocks.
pub proof fn lemma_shrink_leaf(s: Quad<Node>, x: int, y: int)
    requires
        children_ok(s, 0),
        in_square(8, x, y),
    ensures
        alive_in(s, 16, x, y) == alive_blocks(
            Quad { nw: blocks(s.nw).se, ne: blocks(s.ne).sw, sw: blocks(s.sw).ne, se: blocks(s.se).nw },
            x,
            y,
        ),
{
    let qq = quadrant_of(x, y);
    let child = s.at(qq);
    let x1 = re_center_spec(x, 8);
    let y1 = re_center_spec(y, 8);
    assert(child.0.content is Leaf);
    lemma_alive_leaf(child, x1, y1);
}

} // verus!

verus! {

/// The block mask of a run of columns `b..=a` (bit positions within each
/// row) and a run of bit positions `q..=p` has bit `k` set exactly when `k`
/// lies in both runs.
pub proof fn lemma_block_mask(a: u64, b: u64, p: u64, q: u64, k: u64)
    requires
        b <= a < 8,
        q <= p < 64,
        k < 64,
    ensures
        ({
            let hb = 1u64 << a;
            let lb = 1u64 << b;
            let row = hb | vstd::prelude::sub(hb, lb);
            let rows = row | (row << 8u64) | (row << 16u64) | (row << 24u64) | (row << 32u64) | (row
                << 40u64) | (row << 48u64) | (row << 56u64);
            let hc = 1u64 << p;
            let lc = 1u64 << q;
            let col = hc | vstd::prelude::sub(hc, lc);
            ((rows & col) >> k) & 1 == 1 <==> (b <= (k & 7) <= a && q <= k <= p)
        }),
{
    assert({
        let hb = 1u64 << a;
        let lb = 1u64 << b;
        let row = hb | vstd::prelude::sub(hb, lb);
        let rows = row | (row << 8u64) | (row << 16u64) | (row << 24u64) | (row << 32u64) | (row
            << 40u64) | (row << 48u64) | (row << 56u64);
        let hc = 1u64 << p;
        let lc = 1u64 << q;
        let col = hc | vstd::prelude::sub(hc, lc);
        b <= a < 8 && q <= p < 64 && k < 64 ==> (((rows & col) >> k) & 1 == 1 <==> (b <= (k & 7) <= a
            && q <= k <= p))
    }) by (bit_vector);
}

} // verus!

verus! {

/// Whether `a` and `b` have the same live cells.
pub open spec fn same_cells(a: Node, b: Node) -> bool {
    forall|x: int, y: int| #[trigger] alive(a, x, y) == alive(b, x, y)
}

/// Whether `c` holds exactly the live cells of `n` inside `rect`.
pub open spec fn clipped(n: Node, rect: crate::rect::Rect, c: Node) -> bool {
    forall|x: int, y: int| #[trigger] alive(c, x, y) == (alive(n, x, y) && rect.contains(x, y))
}

/// Whether `c` holds exactly the live cells of `n` outside `rect`.
pub open spec fn cleared(n: Node, rect: crate::rect::Rect, c: Node) -> bool {
    forall|x: int, y: int| #[trigger] alive(c, x, y) == (alive(n, x, y) && !rect.contains(x, y))
}

/// The union with a universe that has no live cell keeps exactly the live
/// cells of the other universe.
pub proof fn law_empty_union(empty: Node, x: Node, u: Node)
    requires
        wf(empty),
        pop_of(empty) == 0,
        forall|i: int, j: int| #[trigger] alive(u, i, j) == (alive(empty, i, j) || alive(x, i, j)),
    ensures
        same_cells(u, x),
{
    assert forall|i: int, j: int| #[trigger] alive(u, i, j) == alive(x, i, j) by {
        lemma_empty_dead(empty, i, j);
    }
}

/// Clipping twice to one rectangle keeps what clipping once kept.
pub proof fn law_clip_idempotent(n: Node, rect: crate::rect::Rect, once: Node, twice: Node)
    requires
        clipped(n, rect, once),
        clipped(once, rect, twice),
    ensures
        same_cells(once, twice),
{
    assert forall|x: int, y: int| #[trigger] alive(once, x, y) == alive(twice, x, y) by {
        assert(alive(once, x, y) == (alive(n, x, y) && rect.contains(x, y)));
        assert(alive(twice, x, y) == (alive(once, x, y) && rect.contains(x, y)));
    }
}

/// Clipping to a rectangle what was cleared inside it leaves no live cell.
pub proof fn law_clear_then_clip_empty(n: Node, rect: crate::rect::Rect, c: Node, k: Node)
    requires
        cleared(n, rect, c),
        clipped(c, rect, k),
    ensures
        forall|x: int, y: int| !#[trigger] alive(k, x, y),
{
    assert forall|x: int, y: int| !#[trigger] alive(k, x, y) by {
        assert(alive(k, x, y) == (alive(c, x, y) && rect.contains(x, y)));
        assert(alive(c, x, y) == (alive(n, x, y) && !rect.contains(x, y)));
    }
}

} // verus!

verus! {

/// Whether `r` holds the live cells of `n` moved by `a` (east and south for
/// positive coordinates).
pub open spec fn shifted(n: Node, a: crate::pos::Pos, r: Node) -> bool {
    forall|x: int, y: int| #[trigger] alive(r, x, y) == alive(n, x - a.x, y - a.y)
}

/// Moving by `a` and then by `b` moves by `a + b`.
pub proof fn law_offset_compose(
    n: Node,
    a: crate::pos::Pos,
    b: crate::pos::Pos,
    ab: crate::pos::Pos,
    first: Node,
    both: Node,
    direct: Node,
)
    requires
        ab.x == a.x + b.x,
        ab.y == a.y + b.y,
        shifted(n, a, first),
        shifted(first, b, both),
        shifted(n, ab, direct),
    ensures
        same_cells(both, direct),
{
    assert forall|x: int, y: int| #[trigger] alive(both, x, y) == alive(direct, x, y) by {
        assert(alive(both, x, y) == alive(first, x - b.x, y - b.y));
        assert(alive(first, x - b.x, y - b.y) == alive(n, x - b.x - a.x, y - b.y - a.y));
        assert(alive(direct, x, y) == alive(n, x - ab.x, y - ab.y));
    }
}

/// Moving by nothing keeps every cell.
pub proof fn law_offset_zero(n: Node, zero: crate::pos::Pos, r: Node)
    requires
        zero.x == 0,
        zero.y == 0,
        shifted(n, zero, r),
    ensures
        same_cells(r, n),
{
    assert forall|x: int, y: int| #[trigger] alive(r, x, y) == alive(n, x, y) by {
        assert(alive(r, x, y) == alive(n, x - zero.x, y - zero.y));
    }
}

/// A universe with no live cell advanced any number of generations still
/// has no live cell: the same cells as the empty universe it came from.
pub proof fn law_empty_step(empty: Node, r: Node)
    requires
        wf(empty),
        wf(r),
        pop_of(empty) == 0,
        pop_of(empty) == 0 ==> pop_of(r) == 0,
    ensures
        same_cells(r, empty),
{
    assert forall|x: int, y: int| #[trigger] alive(r, x, y) == alive(empty, x, y) by {
        lemma_empty_dead(r, x, y);
        lemma_empty_dead(empty, x, y);
    }
}

} // verus!

verus! {

/// The live cells of a node.
pub open spec fn cells(n: Node) -> Set<(int, int)> {
    Set::new(|p: (int, int)| alive(n, p.0, p.1))
}

/// The live cells of a block, in block coordinates.
pub open spec fn block_cells(b: Block) -> Set<(int, int)> {
    Set::new(|p: (int, int)| block_alive(b, p.0, p.1))
}

/// The live cells of a block whose bit index is below `n`.
pub open spec fn block_cells_below(b: Block, n: int) -> Set<(int, int)> {
    Set::new(|p: (int, int)| block_alive(b, p.0, p.1) && 27 - 8 * p.1 - p.0 < n)
}

/// `s` moved by `(dx, dy)`.
pub open spec fn moved(s: Set<(int, int)>, dx: int, dy: int) -> Set<(int, int)> {
    s.map(|p: (int, int)| (p.0 + dx, p.1 + dy))
}

proof fn lemma_moved(s: Set<(int, int)>, dx: int, dy: int)
    requires
        s.finite(),
    ensures
        moved(s, dx, dy).finite(),
        moved(s, dx, dy).len() == s.len(),
        forall|x: int, y: int| #[trigger] moved(s, dx, dy).contains((x, y)) == s.contains((x - dx, y - dy)),
{
    let f = |p: (int, int)| (p.0 + dx, p.1 + dy);
    assert(vstd::relations::injective_on(f, s));
    vstd::set_lib::lemma_map_size(s, moved(s, dx, dy), f);
    assert forall|x: int, y: int| #[trigger] moved(s, dx, dy).contains((x, y)) == s.contains((x - dx, y - dy)) by {
        if s.contains((x - dx, y - dy)) {
            assert(f((x - dx, y - dy)) == (x, y));
        }
    }
}

proof fn lemma_block_cells_below(b: Block, n: int)
    requires
        0 <= n <= 64,
    ensures
        block_cells_below(b, n).finite(),
        block_cells_below(b, n).len() == crate::block::bits_count(b.bits, n as nat),
    decreases n,
{
    if n == 0 {
        assert(block_cells_below(b, 0) =~= Set::<(int, int)>::empty());
    } else {
        lemma_block_cells_below(b, n - 1);
        let m = n - 1;
        let c = (3 - m % 8, 3 - m / 8);
        assert(27 - 8 * c.1 - c.0 == m);
        if crate::block::bit_set(b.bits, m) {
            assert(block_alive(b, c.0, c.1));
            assert(block_cells_below(b, n) =~= block_cells_below(b, m).insert(c));
        } else {
            assert(block_cells_below(b, n) =~= block_cells_below(b, m));
        }
    }
}

/// The live cells of a block number its population.
pub proof fn lemma_block_cells_len(b: Block)
    ensures
        block_cells(b).finite(),
        block_cells(b).len() == b.pop(),
{
    lemma_block_cells_below(b, 64);
    assert(block_cells(b) =~= block_cells_below(b, 64));
}

} // verus!

verus! {

/// The union of four pairwise disjoint finite sets has the sum of their
/// sizes.
proof fn lemma_four_lens(a: Set<(int, int)>, b: Set<(int, int)>, c: Set<(int, int)>, d: Set<(int, int)>)
    requires
        a.finite() && b.finite() && c.finite() && d.finite(),
        a.disjoint(b) && a.disjoint(c) && a.disjoint(d),
        b.disjoint(c) && b.disjoint(d),
        c.disjoint(d),
    ensures
        (a + b + c + d).finite(),
        (a + b + c + d).len() == a.len() + b.len() + c.len() + d.len(),
{
    vstd::set_lib::lemma_set_disjoint_lens(a, b);
    assert((a + b).disjoint(c));
    vstd::set_lib::lemma_set_disjoint_lens(a + b, c);
    assert((a + b + c).disjoint(d));
    vstd::set_lib::lemma_set_disjoint_lens(a + b + c, d);
}

/// The live cells of a node, counted one by one, number its population as
/// the node tree sums it up.
pub proof fn law_population_counts_cells(n: Node)
    requires
        wf(n),
    ensures
        cells(n).finite(),
        cells(n).len() == pop_of(n),
    decreases n,
{
    match n.0.content {
        Content::Leaf(q) => {
            lemma_block_cells_len(q.nw);
            lemma_block_cells_len(q.ne);
            lemma_block_cells_len(q.sw);
            lemma_block_cells_len(q.se);
            let a = moved(block_cells(q.nw), -4, -4);
            let b = moved(block_cells(q.ne), 4, -4);
            let c = moved(block_cells(q.sw), -4, 4);
            let d = moved(block_cells(q.se), 4, 4);
            lemma_moved(block_cells(q.nw), -4, -4);
            lemma_moved(block_cells(q.ne), 4, -4);
            lemma_moved(block_cells(q.sw), -4, 4);
            lemma_moved(block_cells(q.se), 4, 4);
            assert forall|p: (int, int)| #[trigger] cells(n).contains(p) == (a + b + c + d).contains(p) by {
                lemma_alive_leaf(n, p.0, p.1);
                assert(a.contains(p) == a.contains((p.0, p.1)));
                assert(b.contains(p) == b.contains((p.0, p.1)));
                assert(c.contains(p) == c.contains((p.0, p.1)));
                assert(d.contains(p) == d.contains((p.0, p.1)));
            }
            assert(cells(n) =~= a + b + c + d);
            assert forall|p: (int, int)| #[trigger] a.contains(p) implies p.0 < 0 && p.1 < 0 by {
                assert(a.contains((p.0, p.1)));
            }
            assert forall|p: (int, int)| #[trigger] b.contains(p) implies p.0 >= 0 && p.1 < 0 by {
                assert(b.contains((p.0, p.1)));
            }
            assert forall|p: (int, int)| #[trigger] c.contains(p) implies p.0 < 0 && p.1 >= 0 by {
                assert(c.contains((p.0, p.1)));
            }
            assert forall|p: (int, int)| #[trigger] d.contains(p) implies p.0 >= 0 && p.1 >= 0 by {
                assert(d.contains((p.0, p.1)));
            }
            lemma_four_lens(a, b, c, d);
        },
        Content::Inner(dd, q) => {
            assert(children_ok(q, (dd - 1) as nat));
            law_population_counts_cells(q.nw);
            law_population_counts_cells(q.ne);
            law_population_counts_cells(q.sw);
            law_population_counts_cells(q.se);
            let h = half_width_spec((dd - 1) as nat);
            vstd::arithmetic::power2::lemma_pow2_unfold(dd as nat + 3);
            vstd::arithmetic::power2::lemma_pow2_pos(dd as nat + 2);
            assert(half_width_spec(dd as nat) / 2 == h);
            let a = moved(cells(q.nw), -h, -h);
            let b = moved(cells(q.ne), h, -h);
            let c = moved(cells(q.sw), -h, h);
            let d = moved(cells(q.se), h, h);
            lemma_moved(cells(q.nw), -h, -h);
            lemma_moved(cells(q.ne), h, -h);
            lemma_moved(cells(q.sw), -h, h);
            lemma_moved(cells(q.se), h, h);
            assert forall|p: (int, int)| #[trigger] cells(n).contains(p) == (a + b + c + d).contains(p) by {
                let (x, y) = p;
                lemma_alive_inner(n, x, y);
                if alive(q.nw, x + h, y + h) {
                    crate::clip::lemma_alive_in_square(q.nw, x + h, y + h);
                }
                if alive(q.ne, x - h, y + h) {
                    crate::clip::lemma_alive_in_square(q.ne, x - h, y + h);
                }
                if alive(q.sw, x + h, y - h) {
                    crate::clip::lemma_alive_in_square(q.sw, x + h, y - h);
                }
                if alive(q.se, x - h, y - h) {
                    crate::clip::lemma_alive_in_square(q.se, x - h, y - h);
                }
                assert(a.contains(p) == a.contains((x, y)));
                assert(b.contains(p) == b.contains((x, y)));
                assert(c.contains(p) == c.contains((x, y)));
                assert(d.contains(p) == d.contains((x, y)));
            }
            assert(cells(n) =~= a + b + c + d);
            assert forall|p: (int, int)| #[trigger] a.contains(p) implies p.0 < 0 && p.1 < 0 by {
                assert(a.contains((p.0, p.1)));
                crate::clip::lemma_alive_in_square(q.nw, p.0 + h, p.1 + h);
            }
            assert forall|p: (int, int)| #[trigger] b.contains(p) implies p.0 >= 0 && p.1 < 0 by {
                assert(b.contains((p.0, p.1)));
                crate::clip::lemma_alive_in_square(q.ne, p.0 - h, p.1 + h);
            }
            assert forall|p: (int, int)| #[trigger] c.contains(p) implies p.0 < 0 && p.1 >= 0 by {
                assert(c.contains((p.0, p.1)));
                crate::clip::lemma_alive_in_square(q.sw, p.0 + h, p.1 - h);
            }
            assert forall|p: (int, int)| #[trigger] d.contains(p) implies p.0 >= 0 && p.1 >= 0 by {
                assert(d.contains((p.0, p.1)));
                crate::clip::lemma_alive_in_square(q.se, p.0 - h, p.1 - h);
            }
            lemma_four_lens(a, b, c, d);
        },
    }
}

} // verus!
