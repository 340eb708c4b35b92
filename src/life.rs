//! Generations of B3/S23 on the unbounded grid, and the facts that let the
//! recursive step reason about them: an answer depends only on its light
//! cone, moving the grid moves the answer, and generations compose.
use vstd::prelude::*;

use crate::block::Block;
use crate::center::{blocks, kids};
use crate::node::{alive, children_ok, depth_of, half_width_spec, in_square, wf, Node};
use crate::offset::{alive_refs, bgrid, lemma_block_window, lemma_mul_small, lemma_node_window, ngrid};
use crate::pos::re_center_spec;
use crate::semantics::{lemma_alive_inner, lemma_alive_leaf};
use crate::quad::Quad;
use crate::semantics::alive_blocks;
use crate::step::{gen_neighbours, life_gen, life_rule, one, quad_cell};

verus! {

/// Cell `(x, y)` after `s` generations of B3/S23 from the live cells `f`.
pub open spec fn evolve(f: spec_fn(int, int) -> bool, s: nat, x: int, y: int) -> bool
    decreases s,
{
    if s == 0 {
        f(x, y)
    } else {
        let t = (s - 1) as nat;
        life_rule(
            evolve(f, t, x, y),
            one(evolve(f, t, x - 1, y - 1)) + one(evolve(f, t, x, y - 1)) + one(evolve(f, t, x + 1, y - 1))
                + one(evolve(f, t, x - 1, y)) + one(evolve(f, t, x + 1, y)) + one(evolve(f, t, x - 1, y + 1))
                + one(evolve(f, t, x, y + 1)) + one(evolve(f, t, x + 1, y + 1)),
        )
    }
}

/// The live neighbours of cell `(x, y)` after `s` generations from `f`.
pub open spec fn around(f: spec_fn(int, int) -> bool, s: nat, x: int, y: int) -> int {
    one(evolve(f, s, x - 1, y - 1)) + one(evolve(f, s, x, y - 1)) + one(evolve(f, s, x + 1, y - 1))
        + one(evolve(f, s, x - 1, y)) + one(evolve(f, s, x + 1, y)) + one(evolve(f, s, x - 1, y + 1))
        + one(evolve(f, s, x, y + 1)) + one(evolve(f, s, x + 1, y + 1))
}

/// Two grids that agree within distance `s` of a cell give it the same
/// state after `s` generations.
pub proof fn lemma_light_cone(f: spec_fn(int, int) -> bool, g: spec_fn(int, int) -> bool, s: nat, x: int, y: int)
    requires
        forall|u: int, v: int| x - s <= u <= x + s && y - s <= v <= y + s ==> #[trigger] f(u, v) == g(u, v),
    ensures
        evolve(f, s, x, y) == evolve(g, s, x, y),
    decreases s,
{
    if s > 0 {
        let t = (s - 1) as nat;
        lemma_light_cone(f, g, t, x, y);
        lemma_light_cone(f, g, t, x - 1, y - 1);
        lemma_light_cone(f, g, t, x, y - 1);
        lemma_light_cone(f, g, t, x + 1, y - 1);
        lemma_light_cone(f, g, t, x - 1, y);
        lemma_light_cone(f, g, t, x + 1, y);
        lemma_light_cone(f, g, t, x - 1, y + 1);
        lemma_light_cone(f, g, t, x, y + 1);
        lemma_light_cone(f, g, t, x + 1, y + 1);
    }
}

/// The grid `f` moved by `(-dx, -dy)`.
pub open spec fn moved_fn(f: spec_fn(int, int) -> bool, dx: int, dy: int) -> spec_fn(int, int) -> bool {
    |u: int, v: int| f(u + dx, v + dy)
}

/// Moving the grid moves every generation.
pub proof fn lemma_evolve_moved(f: spec_fn(int, int) -> bool, dx: int, dy: int, s: nat, x: int, y: int)
    ensures
        evolve(moved_fn(f, dx, dy), s, x, y) == evolve(f, s, x + dx, y + dy),
    decreases s,
{
    if s > 0 {
        let t = (s - 1) as nat;
        lemma_evolve_moved(f, dx, dy, t, x, y);
        lemma_evolve_moved(f, dx, dy, t, x - 1, y - 1);
        lemma_evolve_moved(f, dx, dy, t, x, y - 1);
        lemma_evolve_moved(f, dx, dy, t, x + 1, y - 1);
        lemma_evolve_moved(f, dx, dy, t, x - 1, y);
        lemma_evolve_moved(f, dx, dy, t, x + 1, y);
        lemma_evolve_moved(f, dx, dy, t, x - 1, y + 1);
        lemma_evolve_moved(f, dx, dy, t, x, y + 1);
        lemma_evolve_moved(f, dx, dy, t, x + 1, y + 1);
    }
}

/// The grid after `a` generations.
pub open spec fn after(f: spec_fn(int, int) -> bool, a: nat) -> spec_fn(int, int) -> bool {
    |u: int, v: int| evolve(f, a, u, v)
}

/// `b` generations after `a` generations are `a + b` generations.
pub proof fn lemma_evolve_compose(f: spec_fn(int, int) -> bool, a: nat, b: nat, x: int, y: int)
    ensures
        evolve(after(f, a), b, x, y) == evolve(f, a + b, x, y),
    decreases b,
{
    if b > 0 {
        let t = (b - 1) as nat;
        lemma_evolve_compose(f, a, t, x, y);
        lemma_evolve_compose(f, a, t, x - 1, y - 1);
        lemma_evolve_compose(f, a, t, x, y - 1);
        lemma_evolve_compose(f, a, t, x + 1, y - 1);
        lemma_evolve_compose(f, a, t, x - 1, y);
        lemma_evolve_compose(f, a, t, x + 1, y);
        lemma_evolve_compose(f, a, t, x - 1, y + 1);
        lemma_evolve_compose(f, a, t, x, y + 1);
        lemma_evolve_compose(f, a, t, x + 1, y + 1);
        assert((a + t) + 1 == a + b);
    }
}

/// The live cells of four blocks, centred on the origin.
pub open spec fn blocks_fn(q: Quad<Block>) -> spec_fn(int, int) -> bool {
    |x: int, y: int| alive_blocks(q, x, y)
}

/// The kernel's generations are those of the unbounded grid holding only
/// the four blocks.
pub proof fn lemma_kernel_is_evolve(q: Quad<Block>, s: nat, r: int, c: int)
    ensures
        life_gen(q, s, r, c) == evolve(blocks_fn(q), s, c - 8, r - 8),
    decreases s,
{
    if s == 0 {
        assert(life_gen(q, 0, r, c) == quad_cell(q, r, c));
        if 0 <= r < 16 && 0 <= c < 16 {
            assert(quad_cell(q, r, c) == alive_blocks(q, c - 8, r - 8));
        }
    } else {
        let t = (s - 1) as nat;
        lemma_kernel_is_evolve(q, t, r, c);
        lemma_kernel_is_evolve(q, t, r - 1, c - 1);
        lemma_kernel_is_evolve(q, t, r - 1, c);
        lemma_kernel_is_evolve(q, t, r - 1, c + 1);
        lemma_kernel_is_evolve(q, t, r, c - 1);
        lemma_kernel_is_evolve(q, t, r, c + 1);
        lemma_kernel_is_evolve(q, t, r + 1, c - 1);
        lemma_kernel_is_evolve(q, t, r + 1, c);
        lemma_kernel_is_evolve(q, t, r + 1, c + 1);
        assert(life_gen(q, s, r, c) == life_rule(life_gen(q, t, r, c), gen_neighbours(q, t, r, c)));
        assert(gen_neighbours(q, t, r, c) == one(life_gen(q, t, r - 1, c - 1)) + one(life_gen(q, t, r - 1, c))
            + one(life_gen(q, t, r - 1, c + 1)) + one(life_gen(q, t, r, c - 1)) + one(life_gen(q, t, r, c + 1))
            + one(life_gen(q, t, r + 1, c - 1)) + one(life_gen(q, t, r + 1, c)) + one(life_gen(q, t, r + 1, c + 1)));
    }
}

} // verus!

verus! {

/// The live cells of a node, as a grid.
pub open spec fn cells_fn(n: Node) -> spec_fn(int, int) -> bool {
    |x: int, y: int| alive(n, x, y)
}

/// The live cells of the square of half width `h` made of four referenced
/// nodes, as a grid.
pub open spec fn refs_fn(t: Quad<&Node>, h: int) -> spec_fn(int, int) -> bool {
    |x: int, y: int| alive_refs(t, h, x, y)
}

/// Two grids that agree everywhere have the same generations.
pub proof fn lemma_same_grid(f: spec_fn(int, int) -> bool, g: spec_fn(int, int) -> bool, s: nat, x: int, y: int)
    requires
        forall|u: int, v: int| #[trigger] f(u, v) == g(u, v),
    ensures
        evolve(f, s, x, y) == evolve(g, s, x, y),
{
    lemma_light_cone(f, g, s, x, y);
}

/// A hood tile of grandchildren, advanced `a` generations, shows the node's
/// own generations around the tile's centre.
pub proof fn lemma_tile_evolve(n: Node, tn: Quad<&Node>, tile: Quad<&Node>, xi: int, yi: int, a: nat, rt: Node)
    requires
        wf(n),
        depth_of(n) >= 2,
        *tn.nw == kids(n).nw && *tn.ne == kids(n).ne && *tn.sw == kids(n).sw && *tn.se == kids(n).se,
        0 <= xi < 3,
        0 <= yi < 3,
        *tile.nw == ngrid(tn, yi, xi),
        *tile.ne == ngrid(tn, yi, xi + 1),
        *tile.sw == ngrid(tn, yi + 1, xi),
        *tile.se == ngrid(tn, yi + 1, xi + 1),
        a <= half_width_spec((depth_of(n) - 2) as nat),
        forall|u: int, v: int|
            in_square(half_width_spec((depth_of(n) - 2) as nat), u, v) ==> #[trigger] alive(rt, u, v)
                == evolve(refs_fn(tile, half_width_spec((depth_of(n) - 1) as nat)), a, u, v),
    ensures
        forall|u: int, v: int|
            in_square(half_width_spec((depth_of(n) - 2) as nat), u, v) ==> #[trigger] alive(rt, u, v)
                == evolve(
                cells_fn(n),
                a,
                u + (xi - 1) * half_width_spec((depth_of(n) - 1) as nat),
                v + (yi - 1) * half_width_spec((depth_of(n) - 1) as nat),
            ),
{
    let d = depth_of(n);
    let h1 = half_width_spec((d - 1) as nat);
    let h2 = half_width_spec((d - 2) as nat);
    vstd::arithmetic::power2::lemma_pow2_unfold((d + 3) as nat);
    vstd::arithmetic::power2::lemma_pow2_unfold((d + 2) as nat);
    vstd::arithmetic::power2::lemma_pow2_unfold((d + 1) as nat);
    vstd::arithmetic::power2::lemma_pow2_pos((d + 1) as nat);
    assert(h1 == 2 * h2);
    assert(half_width_spec(d as nat) == 2 * h1);
    assert(children_ok(kids(n), (d - 1) as nat));
    lemma_mul_small(xi, h1);
    lemma_mul_small(yi, h1);
    let cx = (xi - 1) * h1;
    let cy = (yi - 1) * h1;
    let f = refs_fn(tile, h1);
    let g = moved_fn(cells_fn(n), cx, cy);
    assert forall|u: int, v: int|
        in_square(h2, u, v) implies #[trigger] alive(rt, u, v) == evolve(cells_fn(n), a, u + cx, v + cy) by {
        assert forall|p: int, q: int| u - a <= p <= u + a && v - a <= q <= v + a implies #[trigger] f(p, q)
            == g(p, q) by {
            lemma_node_window(tn, xi, yi, p, q);
            lemma_alive_inner(n, p + cx, q + cy);
        }
        lemma_light_cone(f, g, a, u, v);
        lemma_evolve_moved(cells_fn(n), cx, cy, a, u, v);
    }
}

/// Four stepped tiles, arranged around a centre `(ox, oy)` and advanced `b`
/// more generations, show `a + b` generations around that centre.
pub proof fn lemma_overlap_evolve(
    f: spec_fn(int, int) -> bool,
    qo: Quad<&Node>,
    h2: int,
    ox: int,
    oy: int,
    a: nat,
    b: nat,
    sn: Node,
)
    requires
        h2 > 0,
        b <= h2,
        forall|u: int, v: int| in_square(h2, u, v) ==> #[trigger] alive(*qo.nw, u, v) == evolve(f, a, u + ox - h2, v + oy - h2),
        forall|u: int, v: int| in_square(h2, u, v) ==> #[trigger] alive(*qo.ne, u, v) == evolve(f, a, u + ox + h2, v + oy - h2),
        forall|u: int, v: int| in_square(h2, u, v) ==> #[trigger] alive(*qo.sw, u, v) == evolve(f, a, u + ox - h2, v + oy + h2),
        forall|u: int, v: int| in_square(h2, u, v) ==> #[trigger] alive(*qo.se, u, v) == evolve(f, a, u + ox + h2, v + oy + h2),
        forall|u: int, v: int|
            in_square(h2, u, v) ==> #[trigger] alive(sn, u, v) == evolve(refs_fn(qo, 2 * h2), b, u, v),
    ensures
        forall|u: int, v: int| in_square(h2, u, v) ==> #[trigger] alive(sn, u, v) == evolve(f, a + b, u + ox, v + oy),
{
    let fo = refs_fn(qo, 2 * h2);
    let g = moved_fn(after(f, a), ox, oy);
    assert(2 * h2 / 2 == h2);
    assert forall|u: int, v: int| in_square(h2, u, v) implies #[trigger] alive(sn, u, v) == evolve(f, a + b, u + ox, v + oy) by {
        assert forall|p: int, q: int| u - b <= p <= u + b && v - b <= q <= v + b implies #[trigger] fo(p, q)
            == g(p, q) by {
            let pp = re_center_spec(p, h2);
            let qq = re_center_spec(q, h2);
            assert(in_square(h2, pp, qq));
        }
        lemma_light_cone(fo, g, b, u, v);
        lemma_evolve_moved(after(f, a), ox, oy, b, u, v);
        lemma_evolve_compose(f, a, b, u + ox, v + oy);
    }
}

} // verus!

verus! {

/// A hood tile of blocks, advanced `a` generations by the kernel, shows the
/// leaf-level node's own generations around the tile's centre.
pub proof fn lemma_block_tile(n: Node, tile: Quad<Block>, xi: int, yi: int, a: nat, blk: Block)
    requires
        wf(n),
        depth_of(n) == 1,
        0 <= xi < 3,
        0 <= yi < 3,
        ({
            let k = kids(n);
            &&& tile.nw == bgrid(blocks(k.nw), blocks(k.ne), blocks(k.sw), blocks(k.se), yi, xi)
            &&& tile.ne == bgrid(blocks(k.nw), blocks(k.ne), blocks(k.sw), blocks(k.se), yi, xi + 1)
            &&& tile.sw == bgrid(blocks(k.nw), blocks(k.ne), blocks(k.sw), blocks(k.se), yi + 1, xi)
            &&& tile.se == bgrid(blocks(k.nw), blocks(k.ne), blocks(k.sw), blocks(k.se), yi + 1, xi + 1)
        }),
        a <= 4,
        forall|row: int, col: int|
            0 <= row < 8 && 0 <= col < 8 ==> #[trigger] blk.cell(row, col) == life_gen(tile, a, row + 4, col + 4),
    ensures
        forall|row: int, col: int|
            0 <= row < 8 && 0 <= col < 8 ==> #[trigger] blk.cell(row, col) == evolve(
                cells_fn(n),
                a,
                col - 4 + (xi - 1) * 8,
                row - 4 + (yi - 1) * 8,
            ),
{
    let k = kids(n);
    assert(children_ok(k, 0));
    let cx = (xi - 1) * 8;
    let cy = (yi - 1) * 8;
    let f = blocks_fn(tile);
    let g = moved_fn(cells_fn(n), cx, cy);
    vstd::arithmetic::power2::lemma2_to64();
    assert forall|row: int, col: int|
        0 <= row < 8 && 0 <= col < 8 implies #[trigger] blk.cell(row, col) == evolve(
            cells_fn(n),
            a,
            col - 4 + cx,
            row - 4 + cy,
        ) by {
        lemma_kernel_is_evolve(tile, a, row + 4, col + 4);
        let u = col - 4;
        let v = row - 4;
        assert forall|p: int, q: int| u - a <= p <= u + a && v - a <= q <= v + a implies #[trigger] f(p, q)
            == g(p, q) by {
            lemma_block_window(blocks(k.nw), blocks(k.ne), blocks(k.sw), blocks(k.se), xi, yi, p, q);
            lemma_alive_inner(n, p + cx, q + cy);
            let x1 = re_center_spec(p + cx, 8);
            let y1 = re_center_spec(q + cy, 8);
            lemma_alive_leaf(k.nw, x1, y1);
            lemma_alive_leaf(k.ne, x1, y1);
            lemma_alive_leaf(k.sw, x1, y1);
            lemma_alive_leaf(k.se, x1, y1);
        }
        lemma_light_cone(f, g, a, u, v);
        lemma_evolve_moved(cells_fn(n), cx, cy, a, u, v);
    }
}

/// Four kernel results arranged around a centre `(ox, oy)` and advanced `b`
/// more generations show `a + b` generations around that centre.
pub proof fn lemma_block_overlap(f: spec_fn(int, int) -> bool, qb: Quad<Block>, ox: int, oy: int, a: nat, b: nat, blk: Block)
    requires
        b <= 4,
        forall|row: int, col: int| 0 <= row < 8 && 0 <= col < 8 ==> #[trigger] qb.nw.cell(row, col) == evolve(f, a, col - 8 + ox, row - 8 + oy),
        forall|row: int, col: int| 0 <= row < 8 && 0 <= col < 8 ==> #[trigger] qb.ne.cell(row, col) == evolve(f, a, col + ox, row - 8 + oy),
        forall|row: int, col: int| 0 <= row < 8 && 0 <= col < 8 ==> #[trigger] qb.sw.cell(row, col) == evolve(f, a, col - 8 + ox, row + oy),
        forall|row: int, col: int| 0 <= row < 8 && 0 <= col < 8 ==> #[trigger] qb.se.cell(row, col) == evolve(f, a, col + ox, row + oy),
        forall|row: int, col: int|
            0 <= row < 8 && 0 <= col < 8 ==> #[trigger] blk.cell(row, col) == life_gen(qb, b, row + 4, col + 4),
    ensures
        forall|row: int, col: int|
            0 <= row < 8 && 0 <= col < 8 ==> #[trigger] blk.cell(row, col) == evolve(f, a + b, col - 4 + ox, row - 4 + oy),
{
    let fo = blocks_fn(qb);
    let g = moved_fn(after(f, a), ox, oy);
    assert forall|row: int, col: int|
        0 <= row < 8 && 0 <= col < 8 implies #[trigger] blk.cell(row, col) == evolve(f, a + b, col - 4 + ox, row - 4 + oy) by {
        lemma_kernel_is_evolve(qb, b, row + 4, col + 4);
        let u = col - 4;
        let v = row - 4;
        assert forall|p: int, q: int| u - b <= p <= u + b && v - b <= q <= v + b implies #[trigger] fo(p, q)
            == g(p, q) by {
            let lx = re_center_spec(p, 4);
            let ly = re_center_spec(q, 4);
            assert(in_square(4, lx, ly));
        }
        lemma_light_cone(fo, g, b, u, v);
        lemma_evolve_moved(after(f, a), ox, oy, b, u, v);
        lemma_evolve_compose(f, a, b, u + ox, v + oy);
    }
}

} // verus!

verus! {

/// Live cells spread at most one cell per generation: a grid whose live
/// cells lie in the square of half width `k` has, after `s` generations,
/// none outside the square of half width `k + s`.
pub proof fn lemma_confined(f: spec_fn(int, int) -> bool, k: int, s: nat, x: int, y: int)
    requires
        forall|u: int, v: int| #[trigger] f(u, v) ==> in_square(k, u, v),
        !in_square(k + s, x, y),
    ensures
        !evolve(f, s, x, y),
    decreases s,
{
    if s > 0 {
        let t = (s - 1) as nat;
        lemma_confined(f, k, t, x, y);
        lemma_confined(f, k, t, x - 1, y - 1);
        lemma_confined(f, k, t, x, y - 1);
        lemma_confined(f, k, t, x + 1, y - 1);
        lemma_confined(f, k, t, x - 1, y);
        lemma_confined(f, k, t, x + 1, y);
        lemma_confined(f, k, t, x - 1, y + 1);
        lemma_confined(f, k, t, x, y + 1);
        lemma_confined(f, k, t, x + 1, y + 1);
    }
}

} // verus!

verus! {

/// The cell that symmetry `kind` of the square takes to `(x, y)`, first
/// coordinate: 0 mirrors east to west, 1 north to south, 2 turns a quarter
/// clockwise, 3 a half turn, 4 a quarter counter-clockwise.
pub open spec fn sym_x(kind: int, x: int, y: int) -> int {
    if kind == 0 {
        -1 - x
    } else if kind == 1 {
        x
    } else if kind == 2 {
        y
    } else if kind == 3 {
        -1 - x
    } else {
        -1 - y
    }
}

/// Second coordinate of [`sym_x`].
pub open spec fn sym_y(kind: int, x: int, y: int) -> int {
    if kind == 0 {
        y
    } else if kind == 1 {
        -1 - y
    } else if kind == 2 {
        -1 - x
    } else if kind == 3 {
        -1 - y
    } else {
        x
    }
}

/// The grid `f` seen through symmetry `kind`.
pub open spec fn sym_fn(f: spec_fn(int, int) -> bool, kind: int) -> spec_fn(int, int) -> bool {
    |x: int, y: int| f(sym_x(kind, x, y), sym_y(kind, x, y))
}

/// Life commutes with the symmetries of the square.
pub proof fn lemma_evolve_sym(f: spec_fn(int, int) -> bool, kind: int, s: nat, x: int, y: int)
    requires
        0 <= kind < 5,
    ensures
        evolve(sym_fn(f, kind), s, x, y) == evolve(f, s, sym_x(kind, x, y), sym_y(kind, x, y)),
    decreases s,
{
    if s > 0 {
        let t = (s - 1) as nat;
        lemma_evolve_sym(f, kind, t, x, y);
        lemma_evolve_sym(f, kind, t, x - 1, y - 1);
        lemma_evolve_sym(f, kind, t, x, y - 1);
        lemma_evolve_sym(f, kind, t, x + 1, y - 1);
        lemma_evolve_sym(f, kind, t, x - 1, y);
        lemma_evolve_sym(f, kind, t, x + 1, y);
        lemma_evolve_sym(f, kind, t, x - 1, y + 1);
        lemma_evolve_sym(f, kind, t, x, y + 1);
        lemma_evolve_sym(f, kind, t, x + 1, y + 1);
    }
}

/// Stepping `a` generations and then `b` gives the cells of stepping
/// `a + b` at once.
pub proof fn law_step_additive(n: Node, a: nat, b: nat, first: Node, both: Node, direct: Node)
    requires
        forall|x: int, y: int| #[trigger] alive(first, x, y) == evolve(cells_fn(n), a, x, y),
        forall|x: int, y: int| #[trigger] alive(both, x, y) == evolve(cells_fn(first), b, x, y),
        forall|x: int, y: int| #[trigger] alive(direct, x, y) == evolve(cells_fn(n), a + b, x, y),
    ensures
        forall|x: int, y: int| #[trigger] alive(both, x, y) == alive(direct, x, y),
{
    assert forall|x: int, y: int| #[trigger] alive(both, x, y) == alive(direct, x, y) by {
        assert forall|u: int, v: int| #[trigger] cells_fn(first)(u, v) == after(cells_fn(n), a)(u, v) by {}
        lemma_same_grid(cells_fn(first), after(cells_fn(n), a), b, x, y);
        lemma_evolve_compose(cells_fn(n), a, b, x, y);
    }
}

/// A symmetry of the stepped universe has the cells of stepping the
/// transformed universe.
pub proof fn law_step_symmetry(
    n: Node,
    k: nat,
    kind: int,
    stepped: Node,
    sym_of_stepped: Node,
    sym: Node,
    stepped_sym: Node,
)
    requires
        0 <= kind < 5,
        forall|x: int, y: int| #[trigger] alive(stepped, x, y) == evolve(cells_fn(n), k, x, y),
        forall|x: int, y: int|
            #[trigger] alive(sym_of_stepped, x, y) == alive(stepped, sym_x(kind, x, y), sym_y(kind, x, y)),
        forall|x: int, y: int| #[trigger] alive(sym, x, y) == alive(n, sym_x(kind, x, y), sym_y(kind, x, y)),
        forall|x: int, y: int| #[trigger] alive(stepped_sym, x, y) == evolve(cells_fn(sym), k, x, y),
    ensures
        forall|x: int, y: int| #[trigger] alive(sym_of_stepped, x, y) == alive(stepped_sym, x, y),
{
    assert forall|x: int, y: int| #[trigger] alive(sym_of_stepped, x, y) == alive(stepped_sym, x, y) by {
        assert forall|u: int, v: int| #[trigger] cells_fn(sym)(u, v) == sym_fn(cells_fn(n), kind)(u, v) by {}
        lemma_same_grid(cells_fn(sym), sym_fn(cells_fn(n), kind), k, x, y);
        lemma_evolve_sym(cells_fn(n), kind, k, x, y);
        assert(alive(stepped, sym_x(kind, x, y), sym_y(kind, x, y)) == evolve(
            cells_fn(n),
            k,
            sym_x(kind, x, y),
            sym_y(kind, x, y),
        ));
    }
}

} // verus!
