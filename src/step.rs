//! Time evolution under B3/S23: the memoized recursive step and the 8x8
//! bit-parallel kernel under it.
use vstd::prelude::*;

use crate::block::Block;
use crate::center::{blocks, kids, quad_kids};
use crate::quad::center_spec;
use crate::memo::{memo_get, memo_of, memo_put};
use crate::node::{
    children_ok, depth_of, lemma_block_pop_zero, lemma_count_zero, lemma_pow2_fits, node_eq, pop_of,
    wf, Content, Engine, Node, MAX_DEPTH,
};
use crate::quad::Quad;
use crate::life::{cells_fn, evolve, lemma_confined, lemma_block_overlap, lemma_block_tile, lemma_overlap_evolve, lemma_same_grid, lemma_tile_evolve, refs_fn};
use crate::offset::lemma_mul_small;
use crate::node::{alive, half_width_spec, in_square};
use crate::semantics::{lemma_alive_inner, lemma_alive_leaf};
use vstd::arithmetic::power2::pow2;

verus! {

/// How many generations a node of depth `d` can advance its centre: none at
/// depth 0, `2^(d + 2)` above.
pub open spec fn max_steps(d: nat) -> nat {
    if d == 0 {
        0
    } else {
        pow2(d + 2)
    }
}

/// The smallest depth from `d` up (capped at `MAX_DEPTH`) that can advance
/// `s` generations.
pub open spec fn min_depth_from(s: nat, d: nat) -> nat
    decreases MAX_DEPTH - d,
{
    if d >= MAX_DEPTH || max_steps(d) >= s {
        d
    } else {
        min_depth_from(s, d + 1)
    }
}

/// The smallest depth of at least 1 that can advance `s` generations.
pub open spec fn min_depth(s: nat) -> nat {
    min_depth_from(s, 1)
}

/// A memo entry of `step`: `r` is the centre of `n`, one level down,
/// advanced `s` generations.
pub open spec fn step_rel(n: Node, s: nat, r: Node) -> bool {
    &&& wf(n)
    &&& 1 <= depth_of(n)
    &&& 1 <= s <= max_steps(depth_of(n))
    &&& wf(r)
    &&& depth_of(r) + 1 == depth_of(n)
    &&& pop_of(n) == 0 ==> pop_of(r) == 0
    &&& forall|x: int, y: int|
        in_square(half_width_spec(depth_of(r)), x, y) ==> #[trigger] alive(r, x, y) == evolve(
            cells_fn(n),
            s,
            x,
            y,
        )
}

/// Every entry of the memo table of `step` is a step of its input.
pub open spec fn steps_memo_ok(m: Map<(u64, u64), (Node, Node)>) -> bool {
    forall|k: (u64, u64)| #[trigger] m.contains_key(k) ==> step_rel(m[k].0, k.1 as nat, m[k].1)
}

/// The number of generations a node of depth `depth` can advance.
pub fn depth_to_max_steps(depth: u8) -> (r: u64)
    requires
        depth <= MAX_DEPTH,
    ensures
        r == max_steps(depth as nat),
{
    if depth == 0 {
        0
    } else {
        proof {
            lemma_pow2_fits((depth + 2) as nat);
        }
        1u64 << (depth + 2) as u64
    }
}

proof fn lemma_max_steps_mono(a: nat, b: nat)
    requires
        1 <= a <= b,
    ensures
        max_steps(a) <= max_steps(b),
{
    if a < b {
        vstd::arithmetic::power2::lemma_pow2_strictly_increases(a + 2, b + 2);
    }
}

/// The smallest depth that can advance `steps` generations.
pub fn steps_to_min_depth(steps: u64) -> (r: u8)
    requires
        1 <= steps <= max_steps(MAX_DEPTH as nat),
    ensures
        r == min_depth(steps as nat),
        1 <= r <= MAX_DEPTH,
        steps <= max_steps(r as nat),
        r == 1 || max_steps((r - 1) as nat) < steps,
{
    let mut d: u8 = 1;
    while depth_to_max_steps(d) < steps
        invariant
            1 <= d <= MAX_DEPTH,
            min_depth_from(steps as nat, d as nat) == min_depth(steps as nat),
            d == 1 || max_steps((d - 1) as nat) < steps,
            steps <= max_steps(MAX_DEPTH as nat),
        decreases MAX_DEPTH - d,
    {
        d = d + 1;
    }
    d
}

/// A 3x3 arrangement of overlapping tiles.
#[derive(Clone, Copy, Debug)]
pub struct Hood<T> {
    pub nw: T,
    pub n: T,
    pub ne: T,
    pub w: T,
    pub c: T,
    pub e: T,
    pub sw: T,
    pub s: T,
    pub se: T,
}

/// The nine overlapping quads of a 4x4 arrangement.
pub open spec fn hood_spec<T>(q: Quad<Quad<T>>) -> Hood<Quad<T>> {
    Hood {
        nw: q.nw,
        n: Quad { nw: q.nw.ne, ne: q.ne.nw, sw: q.nw.se, se: q.ne.sw },
        ne: q.ne,
        w: Quad { nw: q.nw.sw, ne: q.nw.se, sw: q.sw.nw, se: q.sw.ne },
        c: Quad { nw: q.nw.se, ne: q.ne.sw, sw: q.sw.ne, se: q.se.nw },
        e: Quad { nw: q.ne.sw, ne: q.ne.se, sw: q.se.nw, se: q.se.ne },
        sw: q.sw,
        s: Quad { nw: q.sw.ne, ne: q.se.nw, sw: q.sw.se, se: q.se.sw },
        se: q.se,
    }
}

/// The four overlapping 2x2 quads of a 3x3 arrangement.
pub open spec fn overlaps_spec<T>(h: Hood<T>) -> Quad<Quad<T>> {
    Quad {
        nw: Quad { nw: h.nw, ne: h.n, sw: h.w, se: h.c },
        ne: Quad { nw: h.n, ne: h.ne, sw: h.c, se: h.e },
        sw: Quad { nw: h.w, ne: h.c, sw: h.sw, se: h.s },
        se: Quad { nw: h.c, ne: h.e, sw: h.s, se: h.se },
    }
}

/// The nine overlapping quads of a 4x4 arrangement.
pub fn overlaps_hood<T: Copy>(q: Quad<Quad<T>>) -> (r: Hood<Quad<T>>)
    ensures
        r == hood_spec(q),
{
    let n = Quad { nw: q.nw.ne, ne: q.ne.nw, sw: q.nw.se, se: q.ne.sw };
    let w = Quad { nw: q.nw.sw, ne: q.nw.se, sw: q.sw.nw, se: q.sw.ne };
    let c = Quad { nw: q.nw.se, ne: q.ne.sw, sw: q.sw.ne, se: q.se.nw };
    let e = Quad { nw: q.ne.sw, ne: q.ne.se, sw: q.se.nw, se: q.se.ne };
    let s = Quad { nw: q.sw.ne, ne: q.se.nw, sw: q.sw.se, se: q.se.sw };
    Hood { nw: q.nw, n, ne: q.ne, w, c, e, sw: q.sw, s, se: q.se }
}

/// The four overlapping 2x2 quads of a 3x3 arrangement.
pub fn overlaps_quad<T: Copy>(h: Hood<T>) -> (r: Quad<Quad<T>>)
    ensures
        r == overlaps_spec(h),
{
    Quad {
        nw: Quad { nw: h.nw, ne: h.n, sw: h.w, se: h.c },
        ne: Quad { nw: h.n, ne: h.ne, sw: h.c, se: h.e },
        sw: Quad { nw: h.w, ne: h.c, sw: h.sw, se: h.s },
        se: Quad { nw: h.c, ne: h.e, sw: h.s, se: h.se },
    }
}

// ---- the 8x8 kernel ----

/// Packs the north halves of two blocks side by side: four rows of 16 cells.
pub fn shape_north(w: u64, e: u64) -> (r: u64)
    ensures
        w == 0 && e == 0 ==> r == 0,
        forall|i: u64, c: u64|
            i < 4 && c < 16 ==> #[trigger] ((r >> vstd::prelude::sub(63u64, vstd::prelude::add(vstd::prelude::mul(16u64, i), c))) & 1) == if c < 8 {
                (w >> vstd::prelude::sub(63u64, vstd::prelude::add(vstd::prelude::mul(8u64, i), c))) & 1
            } else {
                (e >> vstd::prelude::sub(71u64, vstd::prelude::add(vstd::prelude::mul(8u64, i), c))) & 1
            },
{
    let r0w = w & 0xff_00_00_00_00_00_00_00;
    let r0e = (e >> 8u64) & 0x00_ff_00_00_00_00_00_00;
    let r1w = (w >> 8u64) & 0x00_00_ff_00_00_00_00_00;
    let r1e = (e >> 16u64) & 0x00_00_00_ff_00_00_00_00;
    let r2w = (w >> 16u64) & 0x00_00_00_00_ff_00_00_00;
    let r2e = (e >> 24u64) & 0x00_00_00_00_00_ff_00_00;
    let r3w = (w >> 24u64) & 0x00_00_00_00_00_00_ff_00;
    let r3e = (e >> 32u64) & 0x00_00_00_00_00_00_00_ff;
    let r = r0w | r0e | r1w | r1e | r2w | r2e | r3w | r3e;
    assert(forall|i: u64, c: u64|
        i < 4 && c < 16 ==> #[trigger] ((((w & 0xff_00_00_00_00_00_00_00) | ((e >> 8u64) & 0x00_ff_00_00_00_00_00_00) | ((w >> 8u64) & 0x00_00_ff_00_00_00_00_00) | ((e >> 16u64) & 0x00_00_00_ff_00_00_00_00) | ((w >> 16u64) & 0x00_00_00_00_ff_00_00_00) | ((e >> 24u64) & 0x00_00_00_00_00_ff_00_00) | ((w >> 24u64) & 0x00_00_00_00_00_00_ff_00) | ((e >> 32u64) & 0x00_00_00_00_00_00_00_ff)) >> vstd::prelude::sub(63u64, vstd::prelude::add(vstd::prelude::mul(16u64, i), c))) & 1) == if c < 8 {
            (w >> vstd::prelude::sub(63u64, vstd::prelude::add(vstd::prelude::mul(8u64, i), c))) & 1
        } else {
            (e >> vstd::prelude::sub(71u64, vstd::prelude::add(vstd::prelude::mul(8u64, i), c))) & 1
        }) by (bit_vector);
    assert(w == 0 && e == 0 ==> (w & 0xff_00_00_00_00_00_00_00) | ((e >> 8u64)
        & 0x00_ff_00_00_00_00_00_00) | ((w >> 8u64) & 0x00_00_ff_00_00_00_00_00) | ((e >> 16u64)
        & 0x00_00_00_ff_00_00_00_00) | ((w >> 16u64) & 0x00_00_00_00_ff_00_00_00) | ((e >> 24u64)
        & 0x00_00_00_00_00_ff_00_00) | ((w >> 24u64) & 0x00_00_00_00_00_00_ff_00) | ((e >> 32u64)
        & 0x00_00_00_00_00_00_00_ff) == 0) by (bit_vector);
    r
}

/// Packs the south halves of two blocks side by side: four rows of 16 cells.
pub fn shape_south(w: u64, e: u64) -> (r: u64)
    ensures
        w == 0 && e == 0 ==> r == 0,
        forall|i: u64, c: u64|
            i < 4 && c < 16 ==> #[trigger] ((r >> vstd::prelude::sub(63u64, vstd::prelude::add(vstd::prelude::mul(16u64, i), c))) & 1) == if c < 8 {
                (w >> vstd::prelude::sub(31u64, vstd::prelude::add(vstd::prelude::mul(8u64, i), c))) & 1
            } else {
                (e >> vstd::prelude::sub(39u64, vstd::prelude::add(vstd::prelude::mul(8u64, i), c))) & 1
            },
{
    let r0w = (w << 32u64) & 0xff_00_00_00_00_00_00_00;
    let r0e = (e << 24u64) & 0x00_ff_00_00_00_00_00_00;
    let r1w = (w << 24u64) & 0x00_00_ff_00_00_00_00_00;
    let r1e = (e << 16u64) & 0x00_00_00_ff_00_00_00_00;
    let r2w = (w << 16u64) & 0x00_00_00_00_ff_00_00_00;
    let r2e = (e << 8u64) & 0x00_00_00_00_00_ff_00_00;
    let r3w = (w << 8u64) & 0x00_00_00_00_00_00_ff_00;
    let r3e = e & 0x00_00_00_00_00_00_00_ff;
    let r = r0w | r0e | r1w | r1e | r2w | r2e | r3w | r3e;
    assert(forall|i: u64, c: u64|
        i < 4 && c < 16 ==> #[trigger] (((((w << 32u64) & 0xff_00_00_00_00_00_00_00) | ((e << 24u64) & 0x00_ff_00_00_00_00_00_00) | ((w << 24u64) & 0x00_00_ff_00_00_00_00_00) | ((e << 16u64) & 0x00_00_00_ff_00_00_00_00) | ((w << 16u64) & 0x00_00_00_00_ff_00_00_00) | ((e << 8u64) & 0x00_00_00_00_00_ff_00_00) | ((w << 8u64) & 0x00_00_00_00_00_00_ff_00) | (e & 0x00_00_00_00_00_00_00_ff)) >> vstd::prelude::sub(63u64, vstd::prelude::add(vstd::prelude::mul(16u64, i), c))) & 1) == if c < 8 {
            (w >> vstd::prelude::sub(31u64, vstd::prelude::add(vstd::prelude::mul(8u64, i), c))) & 1
        } else {
            (e >> vstd::prelude::sub(39u64, vstd::prelude::add(vstd::prelude::mul(8u64, i), c))) & 1
        }) by (bit_vector);
    assert(w == 0 && e == 0 ==> ((w << 32u64) & 0xff_00_00_00_00_00_00_00) | ((e << 24u64)
        & 0x00_ff_00_00_00_00_00_00) | ((w << 24u64) & 0x00_00_ff_00_00_00_00_00) | ((e << 16u64)
        & 0x00_00_00_ff_00_00_00_00) | ((w << 16u64) & 0x00_00_00_00_ff_00_00_00) | ((e << 8u64)
        & 0x00_00_00_00_00_ff_00_00) | ((w << 8u64) & 0x00_00_00_00_00_00_ff_00) | (e
        & 0x00_00_00_00_00_00_00_ff) == 0) by (bit_vector);
    r
}

/// The middle 8x8 block of two strips of four 16-cell rows.
pub fn unshape_center(n: u64, s: u64) -> (r: u64)
    ensures
        n == 0 && s == 0 ==> r == 0,
        forall|rr: u64, c: u64|
            rr < 8 && c < 8 ==> #[trigger] ((r >> vstd::prelude::sub(63u64, vstd::prelude::add(vstd::prelude::mul(8u64, rr), c))) & 1) == if rr < 4 {
                (n >> vstd::prelude::sub(59u64, vstd::prelude::add(vstd::prelude::mul(16u64, rr), c))) & 1
            } else {
                (s >> vstd::prelude::sub(123u64, vstd::prelude::add(vstd::prelude::mul(16u64, rr), c))) & 1
            },
{
    let r0 = (n << 4u64) & 0xff_00_00_00_00_00_00_00;
    let r1 = (n << 12u64) & 0x00_ff_00_00_00_00_00_00;
    let r2 = (n << 20u64) & 0x00_00_ff_00_00_00_00_00;
    let r3 = (n << 28u64) & 0x00_00_00_ff_00_00_00_00;
    let r4 = (s >> 28u64) & 0x00_00_00_00_ff_00_00_00;
    let r5 = (s >> 20u64) & 0x00_00_00_00_00_ff_00_00;
    let r6 = (s >> 12u64) & 0x00_00_00_00_00_00_ff_00;
    let r7 = (s >> 4u64) & 0x00_00_00_00_00_00_00_ff;
    let r = r0 | r1 | r2 | r3 | r4 | r5 | r6 | r7;
    assert(forall|rr: u64, c: u64|
        rr < 8 && c < 8 ==> #[trigger] (((((n << 4u64) & 0xff_00_00_00_00_00_00_00) | ((n << 12u64) & 0x00_ff_00_00_00_00_00_00) | ((n << 20u64) & 0x00_00_ff_00_00_00_00_00) | ((n << 28u64) & 0x00_00_00_ff_00_00_00_00) | ((s >> 28u64) & 0x00_00_00_00_ff_00_00_00) | ((s >> 20u64) & 0x00_00_00_00_00_ff_00_00) | ((s >> 12u64) & 0x00_00_00_00_00_00_ff_00) | ((s >> 4u64) & 0x00_00_00_00_00_00_00_ff)) >> vstd::prelude::sub(63u64, vstd::prelude::add(vstd::prelude::mul(8u64, rr), c))) & 1) == if rr < 4 {
            (n >> vstd::prelude::sub(59u64, vstd::prelude::add(vstd::prelude::mul(16u64, rr), c))) & 1
        } else {
            (s >> vstd::prelude::sub(123u64, vstd::prelude::add(vstd::prelude::mul(16u64, rr), c))) & 1
        }) by (bit_vector);
    assert(n == 0 && s == 0 ==> ((n << 4u64) & 0xff_00_00_00_00_00_00_00) | ((n << 12u64)
        & 0x00_ff_00_00_00_00_00_00) | ((n << 20u64) & 0x00_00_ff_00_00_00_00_00) | ((n << 28u64)
        & 0x00_00_00_ff_00_00_00_00) | ((s >> 28u64) & 0x00_00_00_00_ff_00_00_00) | ((s >> 20u64)
        & 0x00_00_00_00_00_ff_00_00) | ((s >> 12u64) & 0x00_00_00_00_00_00_ff_00) | ((s >> 4u64)
        & 0x00_00_00_00_00_00_00_ff) == 0) by (bit_vector);
    r
}

/// One generation of one 16-cell row given the rows above and below, each
/// cell in its own bit: a cell is born with 3 neighbours and survives with 2
/// or 3.
pub fn step_row(above: u64, row: u64, below: u64) -> (r: u64)
    ensures
        r == life_row(above, row, below),
        forall|k: int|
            0 <= k < 64 ==> (#[trigger] bit_at(r, k) == 1) == life_rule(
                bit_at(row, k) == 1,
                bit_at(above, k - 1) + bit_at(above, k) + bit_at(above, k + 1) + bit_at(row, k - 1)
                    + bit_at(row, k + 1) + bit_at(below, k - 1) + bit_at(below, k) + bit_at(below, k
                    + 1),
            ),
        above == 0 && row == 0 && below == 0 ==> r == 0,
{
    let i0 = above ^ row ^ below;
    let i1 = above & row | above & below | row & below;
    let x = i0 << 1u64;
    let y = above ^ below;
    let z = i0 >> 1u64;
    let a0 = x ^ y ^ z;
    let a1 = x & y | x & z | y & z;
    let p = i1 << 1u64;
    let q = above & below;
    let t = i1 >> 1u64;
    let b0 = p ^ q ^ t;
    let b1 = p & q | p & t | q & t;
    let r = (row | a0) & (a1 ^ b0) & !b1;
    assert(above == 0 && row == 0 && below == 0 ==> life_row(above, row, below) == 0)
        by (bit_vector);
    assert forall|k: int|
        0 <= k < 64 implies (#[trigger] bit_at(r, k) == 1) == life_rule(
            bit_at(row, k) == 1,
            bit_at(above, k - 1) + bit_at(above, k) + bit_at(above, k + 1) + bit_at(row, k - 1)
                + bit_at(row, k + 1) + bit_at(below, k - 1) + bit_at(below, k) + bit_at(below, k
                + 1),
        ) by {
        let j = k as u64;
        lemma_row_rule(above, row, below, j);
    }
    r
}

/// The word-parallel row update applies the rule to every bit.
proof fn lemma_row_rule(a: u64, w: u64, b: u64, j: u64)
    requires
        j < 64,
    ensures
        (bit_at(life_row(a, w, b), j as int) == 1) == life_rule(
            bit_at(w, j as int) == 1,
            bit_at(a, j - 1) + bit_at(a, j as int) + bit_at(a, j + 1) + bit_at(w, j - 1) + bit_at(w, j + 1)
                + bit_at(b, j - 1) + bit_at(b, j as int) + bit_at(b, j + 1),
        ),
{
    let lo = if j == 0 { 0u64 } else { (j - 1) as u64 };
    let hi = if j == 63 { 63u64 } else { (j + 1) as u64 };
    let am = if j == 0 { 0u64 } else { (a >> lo) & 1 };
    let ap = if j == 63 { 0u64 } else { (a >> hi) & 1 };
    let wm = if j == 0 { 0u64 } else { (w >> lo) & 1 };
    let wp = if j == 63 { 0u64 } else { (w >> hi) & 1 };
    let bm = if j == 0 { 0u64 } else { (b >> lo) & 1 };
    let bp = if j == 63 { 0u64 } else { (b >> hi) & 1 };
    assert({
        let n = vstd::prelude::add(vstd::prelude::add(vstd::prelude::add(vstd::prelude::add(
            vstd::prelude::add(vstd::prelude::add(vstd::prelude::add(am, (a >> j) & 1), ap), wm),
            wp,
        ), bm), (b >> j) & 1), bp);
        &&& ((life_row(a, w, b) >> j) & 1 == 1) == (n == 3 || ((w >> j) & 1 == 1 && n == 2))
        &&& am <= 1 && ap <= 1 && wm <= 1 && wp <= 1 && bm <= 1 && bp <= 1
        &&& (a >> j) & 1 <= 1 && (b >> j) & 1 <= 1 && (w >> j) & 1 <= 1
    }) by (bit_vector)
        requires
            j < 64,
            lo == if j == 0 { 0u64 } else { vstd::prelude::sub(j, 1u64) },
            hi == if j == 63 { 63u64 } else { vstd::prelude::add(j, 1u64) },
            am == if j == 0 { 0u64 } else { (a >> lo) & 1 },
            ap == if j == 63 { 0u64 } else { (a >> hi) & 1 },
            wm == if j == 0 { 0u64 } else { (w >> lo) & 1 },
            wp == if j == 63 { 0u64 } else { (w >> hi) & 1 },
            bm == if j == 0 { 0u64 } else { (b >> lo) & 1 },
            bp == if j == 63 { 0u64 } else { (b >> hi) & 1 },
    ;
}

/// Bit `k` of `v`, as 0 or 1; 0 outside the word.
pub open spec fn bit_at(v: u64, k: int) -> u64 {
    if 0 <= k < 64 {
        (v >> (k as u64)) & 1
    } else {
        0
    }
}

/// Cell `(i, c)` of a strip: row `i` (`0..4`, north first), column `c`
/// (`0..16`, west first); 1 if alive.
pub open spec fn lane_bit(v: u64, i: int, c: int) -> u64 {
    bit_at(v, 63 - 16 * i - c)
}

/// Whether cell `(r, c)` of the 16x16 square held in four strips is alive.
pub open spec fn gcell(rows: Seq<u64>, r: int, c: int) -> bool {
    0 <= r < 16 && 0 <= c < 16 && lane_bit(rows[r / 4], r % 4, c) == 1
}

/// Cell `(r, c)` of the 16x16 square of four blocks, `0..16` each, north
/// and west first.
pub open spec fn quad_cell(q: Quad<Block>, r: int, c: int) -> bool {
    &&& 0 <= r < 16 && 0 <= c < 16
    &&& {
        let b = if r < 8 {
            if c < 8 {
                q.nw
            } else {
                q.ne
            }
        } else {
            if c < 8 {
                q.sw
            } else {
                q.se
            }
        };
        bit_at(b.bits, 63 - 8 * (r % 8) - (c % 8)) == 1
    }
}

/// 1 for a live cell, 0 for a dead one.
pub open spec fn one(b: bool) -> int {
    if b {
        1
    } else {
        0
    }
}

/// The live neighbours of cell `(r, c)` of `g` after `s` generations.
pub open spec fn gen_neighbours(q: Quad<Block>, s: nat, r: int, c: int) -> int
    decreases s, 2nat,
{
    one(life_gen(q, s, r - 1, c - 1)) + one(life_gen(q, s, r - 1, c)) + one(life_gen(q, s, r - 1, c + 1))
        + one(life_gen(q, s, r, c - 1)) + one(life_gen(q, s, r, c + 1)) + one(life_gen(q, s, r + 1, c - 1))
        + one(life_gen(q, s, r + 1, c)) + one(life_gen(q, s, r + 1, c + 1))
}

/// Cell `(r, c)` of the 16x16 square of `q` after `s` generations of
/// B3/S23; it depends only on the square when `s <= r, c <= 15 - s`.
pub open spec fn life_gen(q: Quad<Block>, s: nat, r: int, c: int) -> bool
    decreases s, 1nat,
{
    if s == 0 {
        quad_cell(q, r, c)
    } else {
        life_rule(life_gen(q, (s - 1) as nat, r, c), gen_neighbours(q, (s - 1) as nat, r, c))
    }
}

/// The B3/S23 rule for one cell: born with exactly 3 live neighbours,
/// surviving with 2 or 3.
pub open spec fn life_rule(alive: bool, neighbours: int) -> bool {
    neighbours == 3 || (alive && neighbours == 2)
}

/// The word-parallel B3/S23 row update: with `(i0, i1)` the bitwise sum of
/// the three rows, `(a0, a1)` the sum of `i0` shifted either way and
/// `above ^ below`, and `(b0, b1)` that of `i1` shifted and `above & below`,
/// the live cells are `(row | a0) & (a1 ^ b0) & !b1`.
pub open spec fn life_row(above: u64, row: u64, below: u64) -> u64 {
    let i0 = above ^ row ^ below;
    let i1 = above & row | above & below | row & below;
    let x = i0 << 1u64;
    let y = above ^ below;
    let z = i0 >> 1u64;
    let a0 = x ^ y ^ z;
    let a1 = x & y | x & z | y & z;
    let p = i1 << 1u64;
    let q = above & below;
    let t = i1 >> 1u64;
    let b0 = p ^ q ^ t;
    let b1 = p & q | p & t | q & t;
    (row | a0) & (a1 ^ b0) & !b1
}

/// One row with its neighbours from the strips above and below, shifted so
/// that each 16-bit lane sees the lanes next to it.
fn step_row_shift(prev: u64, row: u64, next: u64) -> (r: u64)
    ensures
        r == step_row_shift_spec(prev, row, next),
        prev == 0 && row == 0 && next == 0 ==> r == 0,
        forall|i: int, c: int|
            0 <= i < 4 && 1 <= c < 15 ==> (#[trigger] lane_bit(r, i, c) == 1) == life_rule(
                lane_bit(row, i, c) == 1,
                up(prev, row, i, c - 1) + up(prev, row, i, c) + up(prev, row, i, c + 1) + lane_bit(
                    row,
                    i,
                    c - 1,
                ) + lane_bit(row, i, c + 1) + down(row, next, i, c - 1) + down(row, next, i, c) + down(
                    row,
                    next,
                    i,
                    c + 1,
                ),
            ),
{
    let above = (prev << 48u64) | (row >> 16u64);
    let below = (row << 16u64) | (next >> 48u64);
    assert((prev == 0 && row == 0 ==> (prev << 48u64) | (row >> 16u64) == 0) && (row == 0 && next == 0
        ==> (row << 16u64) | (next >> 48u64) == 0) && (forall|k: u64|
        k < 64 ==> #[trigger] (((prev << 48u64) | (row >> 16u64)) >> k) & 1 == if k < 48 {
            (row >> vstd::prelude::add(k, 16u64)) & 1
        } else {
            (prev >> vstd::prelude::sub(k, 48u64)) & 1
        } && (((row << 16u64) | (next >> 48u64)) >> k) & 1 == if k >= 16 {
            (row >> vstd::prelude::sub(k, 16u64)) & 1
        } else {
            (next >> vstd::prelude::add(k, 48u64)) & 1
        })) by (bit_vector);
    let r = step_row(above, row, below);
    proof {
        assert forall|i: int, c: int|
            0 <= i < 4 && 1 <= c < 15 implies (#[trigger] lane_bit(r, i, c) == 1) == life_rule(
                lane_bit(row, i, c) == 1,
                up(prev, row, i, c - 1) + up(prev, row, i, c) + up(prev, row, i, c + 1) + lane_bit(
                    row,
                    i,
                    c - 1,
                ) + lane_bit(row, i, c + 1) + down(row, next, i, c - 1) + down(row, next, i, c) + down(
                    row,
                    next,
                    i,
                    c + 1,
                ),
            ) by {
            let k = 63 - 16 * i - c;
            assert(bit_at(r, k) == lane_bit(r, i, c));
            let k0 = (k - 1) as u64;
            let k1 = k as u64;
            let k2 = (k + 1) as u64;
            assert((((prev << 48u64) | (row >> 16u64)) >> k0) & 1 == if k0 < 48 { (row >> vstd::prelude::add(k0, 16u64)) & 1 } else { (prev >> vstd::prelude::sub(k0, 48u64)) & 1 });
            assert((((prev << 48u64) | (row >> 16u64)) >> k1) & 1 == if k1 < 48 { (row >> vstd::prelude::add(k1, 16u64)) & 1 } else { (prev >> vstd::prelude::sub(k1, 48u64)) & 1 });
            assert((((prev << 48u64) | (row >> 16u64)) >> k2) & 1 == if k2 < 48 { (row >> vstd::prelude::add(k2, 16u64)) & 1 } else { (prev >> vstd::prelude::sub(k2, 48u64)) & 1 });
            assert((((row << 16u64) | (next >> 48u64)) >> k0) & 1 == if k0 >= 16 { (row >> vstd::prelude::sub(k0, 16u64)) & 1 } else { (next >> vstd::prelude::add(k0, 48u64)) & 1 });
            assert((((row << 16u64) | (next >> 48u64)) >> k1) & 1 == if k1 >= 16 { (row >> vstd::prelude::sub(k1, 16u64)) & 1 } else { (next >> vstd::prelude::add(k1, 48u64)) & 1 });
            assert((((row << 16u64) | (next >> 48u64)) >> k2) & 1 == if k2 >= 16 { (row >> vstd::prelude::sub(k2, 16u64)) & 1 } else { (next >> vstd::prelude::add(k2, 48u64)) & 1 });
        }
    }
    r
}

/// The new strip `row` given its neighbours `prev` and `next`.
pub open spec fn step_row_shift_spec(prev: u64, row: u64, next: u64) -> u64 {
    life_row((prev << 48u64) | (row >> 16u64), row, (row << 16u64) | (next >> 48u64))
}

/// What the strip rule of one cell reads for one neighbour column is what
/// the square holds there.
proof fn lemma_up_down(rows: Seq<u64>, prev: u64, row: u64, next: u64, s: int, i: int, c: int)
    requires
        rows.len() == 4,
        0 <= s < 4,
        0 <= i < 4,
        0 <= c < 16,
        prev == if s == 0 { 0u64 } else { rows[s - 1] },
        row == rows[s],
        next == if s == 3 { 0u64 } else { rows[s + 1] },
        forall|v: u64, k: u64| #[trigger] ((v >> k) & 1) <= 1 && (0u64 >> k) & 1 == 0,
    ensures
        up(prev, row, i, c) == one(gcell(rows, 4 * s + i - 1, c)),
        down(row, next, i, c) == one(gcell(rows, 4 * s + i + 1, c)),
        lane_bit(row, i, c) == one(gcell(rows, 4 * s + i, c)),
{
    let k = (63 - 16 * 3 - c) as u64;
    assert((prev >> k) & 1 <= 1);
    let k0 = (63 - c) as u64;
    assert((next >> k0) & 1 <= 1);
    let k1 = (63 - 16 * i - c) as u64;
    assert((row >> k1) & 1 <= 1);
    if i >= 1 {
        let k2 = (63 - 16 * (i - 1) - c) as u64;
        assert((row >> k2) & 1 <= 1);
    }
    if i <= 2 {
        let k3 = (63 - 16 * (i + 1) - c) as u64;
        assert((row >> k3) & 1 <= 1);
    }
}

/// Cell `(i - 1, c)` of strip `row`, taken from the last row of `prev` for
/// the first row.
pub open spec fn up(prev: u64, row: u64, i: int, c: int) -> u64 {
    if i >= 1 {
        lane_bit(row, i - 1, c)
    } else {
        lane_bit(prev, 3, c)
    }
}

/// Cell `(i + 1, c)` of strip `row`, taken from the first row of `next` for
/// the last row.
pub open spec fn down(row: u64, next: u64, i: int, c: int) -> u64 {
    if i <= 2 {
        lane_bit(row, i + 1, c)
    } else {
        lane_bit(next, 0, c)
    }
}

/// One generation of four strips of four 16-cell rows.
#[verifier::rlimit(50)]
pub fn step_rows_once(rows: &mut [u64; 4])
    ensures
        (forall|i: int| 0 <= i < 4 ==> old(rows)@[i] == 0) ==> (forall|i: int|
            0 <= i < 4 ==> final(rows)@[i] == 0),
        forall|r: int, c: int|
            0 <= r < 16 && 1 <= c < 15 ==> #[trigger] gcell(final(rows)@, r, c) == life_rule(
                gcell(old(rows)@, r, c),
                grid_neighbours(old(rows)@, r, c),
            ),
{
    let ghost old_rows = rows@;
    let a = step_row_shift(0, rows[0], rows[1]);
    let b = step_row_shift(rows[0], rows[1], rows[2]);
    let c = step_row_shift(rows[1], rows[2], rows[3]);
    let d = step_row_shift(rows[2], rows[3], 0);
    *rows = [a, b, c, d];
    assert(a == step_row_shift_spec(0, old_rows[0], old_rows[1]));
    assert(b == step_row_shift_spec(old_rows[0], old_rows[1], old_rows[2]));
    assert(c == step_row_shift_spec(old_rows[1], old_rows[2], old_rows[3]));
    assert(d == step_row_shift_spec(old_rows[2], old_rows[3], 0));
    proof {
        assert(forall|v: u64, k: u64| #[trigger] ((v >> k) & 1) <= 1 && (0u64 >> k) & 1 == 0) by (bit_vector);
        assert forall|r: int, cc: int|
            0 <= r < 16 && 1 <= cc < 15 implies #[trigger] gcell(rows@, r, cc) == life_rule(
                gcell(old_rows, r, cc),
                grid_neighbours(old_rows, r, cc),
            ) by {
            let s = r / 4;
            let i = r % 4;
            assert(0 <= s < 4 && 0 <= i < 4 && r == 4 * s + i);
            let prev = if s == 0 { 0u64 } else { old_rows[s - 1] };
            let next = if s == 3 { 0u64 } else { old_rows[s + 1] };
            let row = old_rows[s];
            assert(rows@[s] == step_row_shift_spec(prev, row, next)) by {
                if s == 0 {
                    assert(rows@[0] == a);
                } else if s == 1 {
                    assert(rows@[1] == b);
                } else if s == 2 {
                    assert(rows@[2] == c);
                } else {
                    assert(rows@[3] == d);
                }
            }
            lemma_up_down(old_rows, prev, row, next, s, i, cc - 1);
            lemma_up_down(old_rows, prev, row, next, s, i, cc);
            lemma_up_down(old_rows, prev, row, next, s, i, cc + 1);
            assert(one(gcell(old_rows, r, cc - 1)) == lane_bit(row, i, cc - 1));
            assert(one(gcell(old_rows, r, cc + 1)) == lane_bit(row, i, cc + 1));
        }
    }
}

/// The live neighbours of cell `(r, c)` of the square held in four strips;
/// cells beyond the north and south edges count as dead.
pub open spec fn grid_neighbours(rows: Seq<u64>, r: int, c: int) -> int {
    one(gcell(rows, r - 1, c - 1)) + one(gcell(rows, r - 1, c)) + one(gcell(rows, r - 1, c + 1)) + one(
        gcell(rows, r, c - 1),
    ) + one(gcell(rows, r, c + 1)) + one(gcell(rows, r + 1, c - 1)) + one(gcell(rows, r + 1, c)) + one(
        gcell(rows, r + 1, c + 1),
    )
}

impl Quad<Block> {
    /// The middle 8x8 block of these four blocks, advanced `steps`
    /// generations (at most 4).
    pub fn step_center(&self, steps: u64) -> (r: Block)
        requires
            steps <= 4,
        ensures
            self.nw.bits == 0 && self.ne.bits == 0 && self.sw.bits == 0 && self.se.bits == 0
                ==> r.bits == 0,
            forall|row: int, col: int|
                0 <= row < 8 && 0 <= col < 8 ==> #[trigger] r.cell(row, col) == life_gen(
                    *self,
                    steps as nat,
                    row + 4,
                    col + 4,
                ),
    {
        let n0 = shape_north(self.nw.bits, self.ne.bits);
        let s0 = shape_south(self.nw.bits, self.ne.bits);
        let n1 = shape_north(self.sw.bits, self.se.bits);
        let s1 = shape_south(self.sw.bits, self.se.bits);
        let mut rows: [u64; 4] = [n0, s0, n1, s1];
        let ghost zero = self.nw.bits == 0 && self.ne.bits == 0 && self.sw.bits == 0 && self.se.bits
            == 0;
        proof {
            assert forall|r: int, c: int|
                0 <= r < 16 && 0 <= c < 16 implies #[trigger] gcell(rows@, r, c) == life_gen(*self, 0, r, c) by {
                let i = r % 4;
                let iu = i as u64;
                let cu = c as u64;
                let k16 = vstd::prelude::sub(63u64, vstd::prelude::add(vstd::prelude::mul(16u64, iu), cu));
                let k8 = vstd::prelude::sub(63u64, vstd::prelude::add(vstd::prelude::mul(8u64, iu), cu));
                let k8e = vstd::prelude::sub(71u64, vstd::prelude::add(vstd::prelude::mul(8u64, iu), cu));
                let k8s = vstd::prelude::sub(31u64, vstd::prelude::add(vstd::prelude::mul(8u64, iu), cu));
                let k8se = vstd::prelude::sub(39u64, vstd::prelude::add(vstd::prelude::mul(8u64, iu), cu));
                assert(k16 == (63 - 16 * i - c) as u64);
                assert(k8 == (63 - 8 * i - c) as u64);
                assert(k8e == (71 - 8 * i - c) as u64);
                assert(k8s == (31 - 8 * i - c) as u64);
                assert(k8se == (39 - 8 * i - c) as u64);
                assert(((n0 >> k16) & 1) == if cu < 8 { (self.nw.bits >> k8) & 1 } else { (self.ne.bits >> k8e) & 1 });
                assert(((s0 >> k16) & 1) == if cu < 8 { (self.nw.bits >> k8s) & 1 } else { (self.ne.bits >> k8se) & 1 });
                assert(((n1 >> k16) & 1) == if cu < 8 { (self.sw.bits >> k8) & 1 } else { (self.se.bits >> k8e) & 1 });
                assert(((s1 >> k16) & 1) == if cu < 8 { (self.sw.bits >> k8s) & 1 } else { (self.se.bits >> k8se) & 1 });
            }
        }
        let mut i: u64 = 0;
        while i < steps
            invariant
                i <= steps <= 4,
                zero ==> forall|j: int| 0 <= j < 4 ==> rows@[j] == 0,
                forall|r: int, c: int|
                    i <= r <= 15 - i && i <= c <= 15 - i ==> #[trigger] gcell(rows@, r, c) == life_gen(
                        *self,
                        i as nat,
                        r,
                        c,
                    ),
            decreases steps - i,
        {
            let ghost before = rows@;
            step_rows_once(&mut rows);
            proof {
                assert forall|r: int, c: int|
                    i + 1 <= r <= 15 - (i + 1) && i + 1 <= c <= 15 - (i + 1) implies #[trigger] gcell(rows@, r, c)
                        == life_gen(*self, (i + 1) as nat, r, c) by {
                    assert(gcell(rows@, r, c) == life_rule(gcell(before, r, c), grid_neighbours(before, r, c)));
                    assert(gcell(before, r - 1, c - 1) == life_gen(*self, i as nat, r - 1, c - 1));
                    assert(gcell(before, r - 1, c) == life_gen(*self, i as nat, r - 1, c));
                    assert(gcell(before, r - 1, c + 1) == life_gen(*self, i as nat, r - 1, c + 1));
                    assert(gcell(before, r, c - 1) == life_gen(*self, i as nat, r, c - 1));
                    assert(gcell(before, r, c) == life_gen(*self, i as nat, r, c));
                    assert(gcell(before, r, c + 1) == life_gen(*self, i as nat, r, c + 1));
                    assert(gcell(before, r + 1, c - 1) == life_gen(*self, i as nat, r + 1, c - 1));
                    assert(gcell(before, r + 1, c) == life_gen(*self, i as nat, r + 1, c));
                    assert(gcell(before, r + 1, c + 1) == life_gen(*self, i as nat, r + 1, c + 1));
                    assert(grid_neighbours(before, r, c) == gen_neighbours(*self, i as nat, r, c));
                }
            }
            i = i + 1;
        }
        let r = Block::from_rows(unshape_center(rows[1], rows[2]));
        proof {
            assert forall|row: int, col: int|
                0 <= row < 8 && 0 <= col < 8 implies #[trigger] r.cell(row, col) == life_gen(
                    *self,
                    steps as nat,
                    row + 4,
                    col + 4,
                ) by {
                let ru = row as u64;
                let cu = col as u64;
                let k = vstd::prelude::sub(63u64, vstd::prelude::add(vstd::prelude::mul(8u64, ru), cu));
                let kn = vstd::prelude::sub(59u64, vstd::prelude::add(vstd::prelude::mul(16u64, ru), cu));
                let ks = vstd::prelude::sub(123u64, vstd::prelude::add(vstd::prelude::mul(16u64, ru), cu));
                assert(k == (63 - 8 * row - col) as u64);
                assert(kn == (59 - 16 * row - col) as u64);
                assert(ks == (123 - 16 * row - col) as u64);
                assert(((r.bits >> k) & 1) == if ru < 4 { (rows@[1] >> kn) & 1 } else { (rows@[2] >> ks) & 1 });
                assert(gcell(rows@, row + 4, col + 4) == life_gen(*self, steps as nat, row + 4, col + 4));
            }
        }
        r
    }
}

// ---- the node recursion ----

/// Four node references, well formed and all of depth `d`.
pub open spec fn refs_ok(t: Quad<&Node>, d: nat) -> bool {
    &&& wf(*t.nw) && depth_of(*t.nw) == d
    &&& wf(*t.ne) && depth_of(*t.ne) == d
    &&& wf(*t.sw) && depth_of(*t.sw) == d
    &&& wf(*t.se) && depth_of(*t.se) == d
}

/// Whether four node references hold no live cell.
pub open spec fn refs_empty(t: Quad<&Node>) -> bool {
    pop_of(*t.nw) == 0 && pop_of(*t.ne) == 0 && pop_of(*t.sw) == 0 && pop_of(*t.se) == 0
}

/// Owned handles of four node references.
fn owned(t: Quad<&Node>) -> (r: Quad<Node>)
    ensures
        r == (Quad { nw: *t.nw, ne: *t.ne, sw: *t.sw, se: *t.se }),
{
    Quad { nw: t.nw.dup(), ne: t.ne.dup(), sw: t.sw.dup(), se: t.se.dup() }
}

/// The centre of the node made of `t`, one level down, advanced `steps`
/// generations.
fn quad_step(e: &mut Engine, t: Quad<&Node>, steps: u64) -> (r: Node)
    requires
        old(e).inv(),
        refs_ok(t, depth_of(*t.nw)),
        depth_of(*t.nw) < MAX_DEPTH,
        steps <= max_steps(depth_of(*t.nw) + 1),
    ensures
        final(e).inv(),
        wf(r),
        depth_of(r) == depth_of(*t.nw),
        refs_empty(t) ==> pop_of(r) == 0,
        forall|u: int, v: int|
            in_square(half_width_spec(depth_of(*t.nw)), u, v) ==> #[trigger] alive(r, u, v) == evolve(
                refs_fn(t, half_width_spec(depth_of(*t.nw) + 1)),
                steps as nat,
                u,
                v,
            ),
    decreases depth_of(*t.nw) + 1, 3nat, steps,
{
    let q = owned(t);
    let ghost hh = half_width_spec(depth_of(*t.nw) + 1);
    if steps == 0 {
        let cd = q.nw.depth();
        q.center_down(e, cd)
    } else {
        let n = Node::new_inner(e, q);
        let r = step_center(e, n, steps);
        proof {
            assert forall|x: int, y: int| #[trigger] cells_fn(n)(x, y) == refs_fn(t, hh)(x, y) by {
                lemma_alive_inner(n, x, y);
            }
            assert forall|u: int, v: int|
                in_square(half_width_spec(depth_of(*t.nw)), u, v) implies #[trigger] alive(r, u, v) == evolve(
                    refs_fn(t, hh),
                    steps as nat,
                    u,
                    v,
                ) by {
                lemma_same_grid(cells_fn(n), refs_fn(t, hh), steps as nat, u, v);
            }
        }
        r
    }
}

/// The centre of `n`, one level down, advanced `steps` generations; looked
/// up in the memo table first.
fn step_center(e: &mut Engine, n: Node, steps: u64) -> (r: Node)
    requires
        old(e).inv(),
        wf(n),
        1 <= depth_of(n),
        1 <= steps <= max_steps(depth_of(n)),
    ensures
        final(e).inv(),
        step_rel(n, steps as nat, r),
    decreases depth_of(n), 2nat, steps,
{
    let key = (n.0.id, steps);
    match memo_get(&mut e.steps, &key) {
        Some(hit) => {
            if node_eq(&hit.0, &n) {
                return hit.1;
            }
        },
        None => {},
    }
    let r = step_center_impl(e, &n, steps);
    let ghost old_memo = memo_of(e.steps);
    memo_put(&mut e.steps, key, (n, r.dup()));
    proof {
        let m = memo_of(e.steps);
        assert forall|k: (u64, u64)| #[trigger] m.contains_key(k) implies step_rel(
            m[k].0,
            k.1 as nat,
            m[k].1,
        ) by {
            assert(old_memo.insert(key, (n, r)).contains_key(k));
            if k != key {
                assert(old_memo.contains_key(k));
            }
        }
    }
    r
}

/// Advances the 3x3 hood of `n` by the first half of `steps` and the four
/// overlapping results by the rest.
fn step_center_impl(e: &mut Engine, n: &Node, steps: u64) -> (r: Node)
    requires
        old(e).inv(),
        wf(*n),
        1 <= depth_of(*n),
        1 <= steps <= max_steps(depth_of(*n)),
    ensures
        final(e).inv(),
        step_rel(*n, steps as nat, r),
    decreases depth_of(*n), 1nat, steps,
{
    let d = n.depth();
    let max = depth_to_max_steps(d);
    let first = steps.saturating_sub(max / 2);
    let second = steps - first;
    proof {
        vstd::arithmetic::power2::lemma_pow2_unfold((d + 2) as nat);
        assert(max == max_steps(d as nat));
        assert(max % 2 == 0);
    }
    assert(first <= max / 2 && second <= max / 2);
    let q = match &n.0.content {
        Content::Inner(_, q) => q,
        Content::Leaf(_) => {
            proof {
                assert(false);
            }
            return n.dup();
        },
    };
    proof {
        assert(children_ok(*q, (d - 1) as nat));
        assert(wf(q.nw) && wf(q.ne) && wf(q.sw) && wf(q.se));
    }
    if d == 1 {
        match (&q.nw.0.content, &q.ne.0.content, &q.sw.0.content, &q.se.0.content) {
            (Content::Leaf(a), Content::Leaf(b), Content::Leaf(c), Content::Leaf(dd)) => {
                proof {
                    if pop_of(*n) == 0 {
                        lemma_block_pop_zero(a.nw);
                        lemma_block_pop_zero(a.ne);
                        lemma_block_pop_zero(a.sw);
                        lemma_block_pop_zero(a.se);
                        lemma_block_pop_zero(b.nw);
                        lemma_block_pop_zero(b.ne);
                        lemma_block_pop_zero(b.sw);
                        lemma_block_pop_zero(b.se);
                        lemma_block_pop_zero(c.nw);
                        lemma_block_pop_zero(c.ne);
                        lemma_block_pop_zero(c.sw);
                        lemma_block_pop_zero(c.se);
                        lemma_block_pop_zero(dd.nw);
                        lemma_block_pop_zero(dd.ne);
                        lemma_block_pop_zero(dd.sw);
                        lemma_block_pop_zero(dd.se);
                    }
                    vstd::arithmetic::power2::lemma2_to64();
                }
                let h = overlaps_hood(Quad { nw: *a, ne: *b, sw: *c, se: *dd });
                let s1 = Hood {
                    nw: h.nw.step_center(first),
                    n: h.n.step_center(first),
                    ne: h.ne.step_center(first),
                    w: h.w.step_center(first),
                    c: h.c.step_center(first),
                    e: h.e.step_center(first),
                    sw: h.sw.step_center(first),
                    s: h.s.step_center(first),
                    se: h.se.step_center(first),
                };
                let o = overlaps_quad(s1);
                let out = Quad {
                    nw: o.nw.step_center(second),
                    ne: o.ne.step_center(second),
                    sw: o.sw.step_center(second),
                    se: o.se.step_center(second),
                };
                proof {
                    if pop_of(*n) == 0 {
                        lemma_count_zero(64);
                    }
                }
                let res = Node::new_leaf(e, out);
                proof {
                    let f = cells_fn(*n);
                    assert(first <= 4 && second <= 4 && first + second == steps);
                    lemma_block_tile(*n, h.nw, 0, 0, first as nat, s1.nw);
                    lemma_block_tile(*n, h.n, 1, 0, first as nat, s1.n);
                    lemma_block_tile(*n, h.ne, 2, 0, first as nat, s1.ne);
                    lemma_block_tile(*n, h.w, 0, 1, first as nat, s1.w);
                    lemma_block_tile(*n, h.c, 1, 1, first as nat, s1.c);
                    lemma_block_tile(*n, h.e, 2, 1, first as nat, s1.e);
                    lemma_block_tile(*n, h.sw, 0, 2, first as nat, s1.sw);
                    lemma_block_tile(*n, h.s, 1, 2, first as nat, s1.s);
                    lemma_block_tile(*n, h.se, 2, 2, first as nat, s1.se);
                    lemma_block_overlap(f, o.nw, -4, -4, first as nat, second as nat, out.nw);
                    lemma_block_overlap(f, o.ne, 4, -4, first as nat, second as nat, out.ne);
                    lemma_block_overlap(f, o.sw, -4, 4, first as nat, second as nat, out.sw);
                    lemma_block_overlap(f, o.se, 4, 4, first as nat, second as nat, out.se);
                    assert forall|x: int, y: int|
                        in_square(half_width_spec(depth_of(res)), x, y) implies #[trigger] alive(res, x, y)
                            == evolve(cells_fn(*n), steps as nat, x, y) by {
                        lemma_alive_leaf(res, x, y);
                    }
                }
                res
            },
            _ => {
                proof {
                    assert(false);
                }
                n.dup()
            },
        }
    } else {
        step_inners(e, n, steps, first, second)
    }
}

// ---- buffering ----

/// Whether the twelve outer blocks of four leaves are empty.
pub open spec fn leaf_buffered_spec(q: Quad<Node>) -> bool {
    let a = blocks(q.nw);
    let b = blocks(q.ne);
    let c = blocks(q.sw);
    let d = blocks(q.se);
    &&& a.nw.bits == 0 && a.ne.bits == 0 && a.sw.bits == 0
    &&& b.nw.bits == 0 && b.ne.bits == 0 && b.se.bits == 0
    &&& c.nw.bits == 0 && c.sw.bits == 0 && c.se.bits == 0
    &&& d.ne.bits == 0 && d.sw.bits == 0 && d.se.bits == 0
}

/// Whether the twelve outer grandchildren of four inner nodes are empty.
pub open spec fn inner_buffered_spec(q: Quad<Node>) -> bool {
    let a = kids(q.nw);
    let b = kids(q.ne);
    let c = kids(q.sw);
    let d = kids(q.se);
    &&& pop_of(a.nw) == 0 && pop_of(a.ne) == 0 && pop_of(a.sw) == 0
    &&& pop_of(b.nw) == 0 && pop_of(b.ne) == 0 && pop_of(b.se) == 0
    &&& pop_of(c.nw) == 0 && pop_of(c.sw) == 0 && pop_of(c.se) == 0
    &&& pop_of(d.ne) == 0 && pop_of(d.sw) == 0 && pop_of(d.se) == 0
}

/// The smallest depth, at least `t`, at which the node of children `q` keeps
/// all its live cells in its middle half (an empty border of one level).
pub open spec fn ub_inner(q: Quad<Node>, t: nat) -> nat
    decreases depth_of(q.nw),
{
    let cd = depth_of(q.nw);
    if cd < t {
        t
    } else if cd == 0 {
        if leaf_buffered_spec(q) {
            0
        } else {
            1
        }
    } else if inner_buffered_spec(q) && depth_of(center_spec(quad_kids(q)).nw) < cd {
        ub_inner(center_spec(quad_kids(q)), t)
    } else {
        cd + 1
    }
}

/// The smallest depth, at least `t`, at which `n` is buffered by an empty
/// border.
pub open spec fn unbuffered_depth_spec(n: Node, t: nat) -> nat {
    if depth_of(n) <= t {
        t
    } else {
        ub_inner(kids(n), t)
    }
}

/// Every live cell of a node lies within the half width of its unbuffered
/// depth.
pub proof fn lemma_unbuffered_holds(n: Node, t: nat, x: int, y: int)
    requires
        wf(n),
        alive(n, x, y),
    ensures
        in_square(half_width_spec(unbuffered_depth_spec(n, t)), x, y),
{
    crate::clip::lemma_alive_in_square(n, x, y);
    if depth_of(n) <= t {
        crate::center::lemma_pow2_le(depth_of(n) + 3, t + 3);
    } else {
        lemma_alive_inner(n, x, y);
        assert(children_ok(kids(n), (depth_of(n) - 1) as nat));
        lemma_ub_inner_holds(kids(n), t, x, y);
    }
}

/// Every live cell of the square of four children lies within the half
/// width of its unbuffered depth.
pub proof fn lemma_ub_inner_holds(q: Quad<Node>, t: nat, x: int, y: int)
    requires
        children_ok(q, depth_of(q.nw)),
        depth_of(q.nw) < MAX_DEPTH,
        crate::semantics::alive_in(q, half_width_spec(depth_of(q.nw) + 1), x, y),
    ensures
        in_square(half_width_spec(ub_inner(q, t)), x, y),
    decreases depth_of(q.nw),
{
    let cd = depth_of(q.nw);
    let h = half_width_spec(cd + 1);
    vstd::arithmetic::power2::lemma2_to64();
    vstd::arithmetic::power2::lemma_pow2_unfold(cd + 4);
    vstd::arithmetic::power2::lemma_pow2_pos(cd + 3);
    assert(wf(q.nw) && wf(q.ne) && wf(q.sw) && wf(q.se));
    let c = q.at(crate::quad::quadrant_of(x, y));
    let x1 = crate::pos::re_center_spec(x, h / 2);
    let y1 = crate::pos::re_center_spec(y, h / 2);
    if cd < t {
        crate::center::lemma_pow2_le(cd + 4, t + 3);
    } else if cd == 0 {
        if leaf_buffered_spec(q) {
            lemma_alive_leaf(c, x1, y1);
            let b = blocks(c).at(crate::quad::quadrant_of(x1, y1));
            if !in_square(8, x, y) {
                crate::semantics::lemma_zero_block_dead(
                    b,
                    crate::pos::re_center_spec(x1, 4),
                    crate::pos::re_center_spec(y1, 4),
                );
            }
        }
    } else if inner_buffered_spec(q) && depth_of(center_spec(quad_kids(q)).nw) < cd {
        assert(children_ok(kids(q.nw), (cd - 1) as nat));
        assert(children_ok(kids(q.ne), (cd - 1) as nat));
        assert(children_ok(kids(q.sw), (cd - 1) as nat));
        assert(children_ok(kids(q.se), (cd - 1) as nat));
        if !in_square(half_width_spec(cd), x, y) {
            lemma_alive_inner(c, x1, y1);
            let g = kids(c).at(crate::quad::quadrant_of(x1, y1));
            crate::semantics::lemma_empty_dead(
                g,
                crate::pos::re_center_spec(x1, h / 4),
                crate::pos::re_center_spec(y1, h / 4),
            );
        }
        crate::semantics::lemma_shrink_inner(q, x, y);
        lemma_ub_inner_holds(center_spec(quad_kids(q)), t, x, y);
    }
}

/// Whether the twelve outer blocks of four leaf nodes are empty.
fn leaf_buffered(a: &Quad<Block>, b: &Quad<Block>, c: &Quad<Block>, d: &Quad<Block>) -> (r: bool)
    ensures
        r == (a.nw.bits == 0 && a.ne.bits == 0 && a.sw.bits == 0 && b.nw.bits == 0 && b.ne.bits == 0
            && b.se.bits == 0 && c.nw.bits == 0 && c.sw.bits == 0 && c.se.bits == 0 && d.ne.bits == 0
            && d.sw.bits == 0 && d.se.bits == 0),
{
    a.nw.bits == 0 && a.ne.bits == 0 && a.sw.bits == 0 && b.nw.bits == 0 && b.ne.bits == 0
        && b.se.bits == 0 && c.nw.bits == 0 && c.sw.bits == 0 && c.se.bits == 0 && d.ne.bits == 0
        && d.sw.bits == 0 && d.se.bits == 0
}

/// Whether the twelve outer grandchildren of four inner nodes are empty.
fn inner_buffered(a: &Quad<Node>, b: &Quad<Node>, c: &Quad<Node>, d: &Quad<Node>) -> (r: bool)
    requires
        wf(a.nw) && wf(a.ne) && wf(a.sw),
        wf(b.nw) && wf(b.ne) && wf(b.se),
        wf(c.nw) && wf(c.sw) && wf(c.se),
        wf(d.ne) && wf(d.sw) && wf(d.se),
    ensures
        r == (pop_of(a.nw) == 0 && pop_of(a.ne) == 0 && pop_of(a.sw) == 0 && pop_of(b.nw) == 0
            && pop_of(b.ne) == 0 && pop_of(b.se) == 0 && pop_of(c.nw) == 0 && pop_of(c.sw) == 0
            && pop_of(c.se) == 0 && pop_of(d.ne) == 0 && pop_of(d.sw) == 0 && pop_of(d.se) == 0),
{
    a.nw.is_empty() && a.ne.is_empty() && a.sw.is_empty() && b.nw.is_empty() && b.ne.is_empty()
        && b.se.is_empty() && c.nw.is_empty() && c.sw.is_empty() && c.se.is_empty()
        && d.ne.is_empty() && d.sw.is_empty() && d.se.is_empty()
}

/// See [`ub_inner`].
fn unbufferd_depth_inner(q: &Quad<Node>, target: u8) -> (r: u8)
    requires
        children_ok(*q, depth_of(q.nw)),
        depth_of(q.nw) < MAX_DEPTH,
    ensures
        r == ub_inner(*q, target as nat),
        target <= r <= if target > depth_of(q.nw) + 1 { target as nat } else { depth_of(q.nw) + 1 },
    decreases depth_of(q.nw),
{
    let cd = q.nw.depth();
    if cd < target {
        return target;
    }
    proof {
        assert(wf(q.nw) && wf(q.ne) && wf(q.sw) && wf(q.se));
    }
    match (&q.nw.0.content, &q.ne.0.content, &q.sw.0.content, &q.se.0.content) {
        (Content::Leaf(a), Content::Leaf(b), Content::Leaf(c), Content::Leaf(d)) => {
            if leaf_buffered(a, b, c, d) {
                0
            } else {
                1
            }
        },
        (Content::Inner(_, a), Content::Inner(_, b), Content::Inner(_, c), Content::Inner(_, d)) => {
            proof {
                assert(children_ok(*a, (cd - 1) as nat));
                assert(children_ok(*b, (cd - 1) as nat));
                assert(children_ok(*c, (cd - 1) as nat));
                assert(children_ok(*d, (cd - 1) as nat));
            }
            if inner_buffered(a, b, c, d) {
                let center = Quad { nw: a.se.dup(), ne: b.sw.dup(), sw: c.ne.dup(), se: d.nw.dup() };
                unbufferd_depth_inner(&center, target)
            } else {
                cd + 1
            }
        },
        _ => {
            proof {
                assert(false);
            }
            target
        },
    }
}

impl Node {
    /// The smallest depth, at least `target`, at which this node would still
    /// hold every live cell inside an empty border one level wide.
    pub fn unbufferd_depth(&self, target: u8) -> (r: u8)
        requires
            wf(*self),
        ensures
            r == unbuffered_depth_spec(*self, target as nat),
            target <= r <= if target > depth_of(*self) { target as nat } else { depth_of(*self) },
    {
        let d = self.depth();
        if d <= target {
            target
        } else {
            match &self.0.content {
                Content::Inner(_, q) => unbufferd_depth_inner(q, target),
                Content::Leaf(_) => {
                    proof {
                        assert(false);
                    }
                    target
                },
            }
        }
    }

    /// The universe advanced `steps` generations, centred on the same origin:
    /// this node itself for no step, else a node one level above the
    /// smallest buffered depth that can hold `steps` generations.
    pub fn step(&self, e: &mut Engine, steps: u64) -> (r: Node)
        requires
            old(e).inv(),
            wf(*self),
            steps <= max_steps(MAX_DEPTH as nat),
            steps > 0 ==> unbuffered_depth_spec(*self, (min_depth(steps as nat) - 1) as nat) + 2
                <= MAX_DEPTH,
        ensures
            final(e).inv(),
            wf(r),
            steps == 0 ==> r == *self,
            steps > 0 ==> depth_of(r) == unbuffered_depth_spec(
                *self,
                (min_depth(steps as nat) - 1) as nat,
            ) + 1,
            pop_of(*self) == 0 ==> pop_of(r) == 0,
            forall|x: int, y: int| #[trigger] alive(r, x, y) == evolve(cells_fn(*self), steps as nat, x, y),
    {
        if steps == 0 {
            return self.dup();
        }
        let min = steps_to_min_depth(steps);
        let depth = self.unbufferd_depth(min - 1) + 2;
        let root = self.center_at_depth(e, depth);
        proof {
            lemma_max_steps_mono(min as nat, depth as nat);
        }
        let r = step_center(e, root, steps);
        proof {
            let ub = unbuffered_depth_spec(*self, (min - 1) as nat);
            assert forall|x: int, y: int| #[trigger] cells_fn(root)(x, y) == cells_fn(*self)(x, y) by {
                if depth < depth_of(*self) {
                    if alive(*self, x, y) {
                        lemma_unbuffered_holds(*self, (min - 1) as nat, x, y);
                        crate::center::lemma_pow2_le(ub + 3, depth as nat + 3);
                    }
                    if alive(root, x, y) {
                        crate::clip::lemma_alive_in_square(root, x, y);
                    }
                }
            }
            let hu = half_width_spec(ub);
            vstd::arithmetic::power2::lemma_pow2_unfold(ub + 4);
            lemma_max_steps_mono(min as nat, (ub + 1) as nat);
            assert(steps <= hu);
            assert forall|u: int, v: int| #[trigger] cells_fn(*self)(u, v) implies in_square(hu, u, v) by {
                lemma_unbuffered_holds(*self, (min - 1) as nat, u, v);
            }
            assert forall|x: int, y: int| #[trigger] alive(r, x, y) == evolve(cells_fn(*self), steps as nat, x, y) by {
                lemma_same_grid(cells_fn(root), cells_fn(*self), steps as nat, x, y);
                if !in_square(half_width_spec(depth_of(r)), x, y) {
                    lemma_confined(cells_fn(*self), hu, steps as nat, x, y);
                    if alive(r, x, y) {
                        crate::clip::lemma_alive_in_square(r, x, y);
                    }
                }
            }
        }
        r
    }
}



/// The recursive case of [`step_center_impl`]: children are inner nodes.
#[verifier::rlimit(60)]
fn step_inners(e: &mut Engine, n: &Node, steps: u64, first: u64, second: u64) -> (r: Node)
    requires
        old(e).inv(),
        wf(*n),
        2 <= depth_of(*n),
        1 <= steps <= max_steps(depth_of(*n)),
        first + second == steps,
        first <= max_steps(depth_of(*n)) / 2,
        second <= max_steps(depth_of(*n)) / 2,
    ensures
        final(e).inv(),
        step_rel(*n, steps as nat, r),
    decreases depth_of(*n), 0nat, steps,
{
    let d = n.depth();
    let q = match &n.0.content {
        Content::Inner(_, q) => q,
        Content::Leaf(_) => {
            proof {
                assert(false);
            }
            return n.dup();
        },
    };
    proof {
        assert(children_ok(*q, (d - 1) as nat));
        assert(wf(q.nw) && wf(q.ne) && wf(q.sw) && wf(q.se));
    }
    match (&q.nw.0.content, &q.ne.0.content, &q.sw.0.content, &q.se.0.content) {
        (
            Content::Inner(_, a),
            Content::Inner(_, b),
            Content::Inner(_, c),
            Content::Inner(_, dd),
        ) => {
            let ghost gd = (d - 2) as nat;
            proof {
                assert(children_ok(*a, gd));
                assert(children_ok(*b, gd));
                assert(children_ok(*c, gd));
                assert(children_ok(*dd, gd));
                vstd::arithmetic::power2::lemma_pow2_unfold((d + 2) as nat);
            }
            let h = overlaps_hood(Quad { nw: a.as_ref(), ne: b.as_ref(), sw: c.as_ref(), se: dd.as_ref() });
            let t_nw = quad_step(e, h.nw, first);
            let t_n = quad_step(e, h.n, first);
            let t_ne = quad_step(e, h.ne, first);
            let t_w = quad_step(e, h.w, first);
            let t_c = quad_step(e, h.c, first);
            let t_e = quad_step(e, h.e, first);
            let t_sw = quad_step(e, h.sw, first);
            let t_s = quad_step(e, h.s, first);
            let t_se = quad_step(e, h.se, first);
            let o = overlaps_quad(
                Hood {
                    nw: &t_nw,
                    n: &t_n,
                    ne: &t_ne,
                    w: &t_w,
                    c: &t_c,
                    e: &t_e,
                    sw: &t_sw,
                    s: &t_s,
                    se: &t_se,
                },
            );
            let u_nw = quad_step(e, o.nw, second);
            let u_ne = quad_step(e, o.ne, second);
            let u_sw = quad_step(e, o.sw, second);
            let u_se = quad_step(e, o.se, second);
            let res = Node::new_depth_inner(e, d - 1, Quad { nw: u_nw, ne: u_ne, sw: u_sw, se: u_se });
            proof {
                let tn = Quad { nw: &q.nw, ne: &q.ne, sw: &q.sw, se: &q.se };
                let f = cells_fn(*n);
                let h1 = half_width_spec((d - 1) as nat);
                let h2 = half_width_spec((d - 2) as nat);
                vstd::arithmetic::power2::lemma_pow2_unfold((d + 1) as nat);
                vstd::arithmetic::power2::lemma_pow2_pos((d + 1) as nat);
                assert(h1 == 2 * h2);
                assert(first <= h2 && second <= h2 && first + second == steps);
                lemma_tile_evolve(*n, tn, h.nw, 0, 0, first as nat, t_nw);
                lemma_tile_evolve(*n, tn, h.n, 1, 0, first as nat, t_n);
                lemma_tile_evolve(*n, tn, h.ne, 2, 0, first as nat, t_ne);
                lemma_tile_evolve(*n, tn, h.w, 0, 1, first as nat, t_w);
                lemma_tile_evolve(*n, tn, h.c, 1, 1, first as nat, t_c);
                lemma_tile_evolve(*n, tn, h.e, 2, 1, first as nat, t_e);
                lemma_tile_evolve(*n, tn, h.sw, 0, 2, first as nat, t_sw);
                lemma_tile_evolve(*n, tn, h.s, 1, 2, first as nat, t_s);
                lemma_tile_evolve(*n, tn, h.se, 2, 2, first as nat, t_se);
                lemma_mul_small(0, h1);
                lemma_mul_small(1, h1);
                lemma_mul_small(2, h1);
                lemma_overlap_evolve(f, o.nw, h2, -h2, -h2, first as nat, second as nat, u_nw);
                lemma_overlap_evolve(f, o.ne, h2, h2, -h2, first as nat, second as nat, u_ne);
                lemma_overlap_evolve(f, o.sw, h2, -h2, h2, first as nat, second as nat, u_sw);
                lemma_overlap_evolve(f, o.se, h2, h2, h2, first as nat, second as nat, u_se);
                assert(2 * h2 / 2 == h2);
                assert forall|x: int, y: int|
                    in_square(half_width_spec(depth_of(res)), x, y) implies #[trigger] alive(res, x, y)
                        == evolve(cells_fn(*n), steps as nat, x, y) by {
                    lemma_alive_inner(res, x, y);
                }
            }
            res
        },
        _ => {
            proof {
                assert(false);
            }
            n.dup()
        },
    }
}

} // verus!
