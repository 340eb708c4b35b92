//! Hash-consed quadtree nodes and the table that interns them.
use vstd::prelude::*;

use std::rc::{Rc, Weak};
use weak_table::WeakValueHashMap;

use crate::block::Block;
use crate::memo::{memo_new, memo_of, Memo};
use crate::reduce::reduce_memo_ok;
use crate::step::steps_memo_ok;
use crate::pos::re_center_spec;
use crate::quad::{quadrant_of, DepthQuad, Quad};
use vstd::arithmetic::power2::pow2;

verus! {

/// The depth of the largest node: its width, `2^(depth + 4)`, still fits in
/// a `u64` and its half width in an `i64`.
pub const MAX_DEPTH: u8 = 59;

/// Width log2 of a leaf node (16 cells).
pub const MIN_WIDTH_LOG2: u8 = 4;

/// The content of a node: four blocks (a leaf, depth 0) or a depth of at
/// least 1 and four children one level down.
#[derive(Debug)]
pub enum Content {
    Leaf(Quad<Block>),
    Inner(u8, Quad<Node>),
}

impl Content {
    pub open spec fn depth_spec(self) -> nat {
        match self {
            Content::Leaf(_) => 0,
            Content::Inner(d, _) => d as nat,
        }
    }
}

/// What a node holds: its content, its cached population and an identity
/// number handed out by the interner.
#[derive(Debug)]
pub struct NodeData {
    pub content: Content,
    pub population: u64,
    pub id: u64,
}

/// A shared, immutable quadtree node. Nodes made through one [`Engine`]
/// with equal contents are the same allocation.
#[derive(Clone, Debug)]
pub struct Node(pub Rc<NodeData>);

/// `x` saturated to the range of `u64`.
pub open spec fn sat(x: nat) -> nat {
    if x > u64::MAX {
        u64::MAX as nat
    } else {
        x
    }
}

pub open spec fn quad_pop_blocks(q: Quad<Block>) -> nat {
    q.nw.pop() + q.ne.pop() + q.sw.pop() + q.se.pop()
}

/// The depth of a node: 0 for a leaf (16x16), `d` for an inner node of width
/// `2^(d + 4)`.
pub open spec fn depth_of(n: Node) -> nat {
    n.0.content.depth_spec()
}

/// The exact number of live cells of a node.
pub open spec fn pop_of(n: Node) -> nat
    decreases n,
{
    match n.0.content {
        Content::Leaf(q) => quad_pop_blocks(q),
        Content::Inner(_, q) => pop_of(q.nw) + pop_of(q.ne) + pop_of(q.sw) + pop_of(q.se),
    }
}

/// Sum of the exact populations of four nodes.
pub open spec fn quad_pop_nodes(q: Quad<Node>) -> nat {
    pop_of(q.nw) + pop_of(q.ne) + pop_of(q.sw) + pop_of(q.se)
}

/// Whether four nodes are well formed and all of depth `d`.
pub open spec fn children_ok(q: Quad<Node>, d: nat) -> bool
    decreases q, 1nat,
{
    &&& wf(q.nw) && depth_of(q.nw) == d
    &&& wf(q.ne) && depth_of(q.ne) == d
    &&& wf(q.sw) && depth_of(q.sw) == d
    &&& wf(q.se) && depth_of(q.se) == d
}

/// Whether content may be made a node: depth within `1..=MAX_DEPTH` for
/// inner content, with four well-formed children one level down.
pub open spec fn content_ok(data: Content) -> bool {
    match data {
        Content::Leaf(_) => true,
        Content::Inner(d, q) => 1 <= d <= MAX_DEPTH && children_ok(q, (d - 1) as nat),
    }
}

/// A well-formed node: depth at most `MAX_DEPTH`, inner children one level
/// down and well formed, population the exact count saturated to `u64`.
pub open spec fn wf(n: Node) -> bool
    decreases n, 0nat,
{
    &&& n.0.population == sat(pop_of(n))
    &&& match n.0.content {
        Content::Leaf(_) => true,
        Content::Inner(d, q) => 1 <= d <= MAX_DEPTH && children_ok(q, (d - 1) as nat),
    }
}

/// Relies on `Rc::clone`: the new handle points at the same value.
#[verifier::external_body]
fn share(a: &Rc<NodeData>) -> (r: Rc<NodeData>)
    ensures
        r == *a,
{
    Rc::clone(a)
}

/// Relies on `Rc::ptr_eq`: handles of one allocation hold one value.
#[verifier::external_body]
fn same_alloc(a: &Rc<NodeData>, b: &Rc<NodeData>) -> (r: bool)
    ensures
        r ==> *a == *b,
{
    Rc::ptr_eq(a, b)
}

/// The interning key of content: the depth, and the four blocks of a leaf or
/// the identity numbers of the four children.
pub type NodeKey = (u8, u64, u64, u64, u64);

/// The weak table from content keys to live nodes. Held behind an opaque
/// struct: its value type, `std::rc::Weak`, carries an allocator parameter
/// that cannot be declared to the verifier.
#[verifier::external_body]
pub struct NodeTable {
    map: WeakValueHashMap<NodeKey, Weak<NodeData>>,
}

/// Relies on `WeakValueHashMap::new`: an empty table.
#[verifier::external_body]
fn table_new() -> NodeTable {
    NodeTable { map: WeakValueHashMap::new() }
}

/// Relies on `WeakValueHashMap::get`: a live value stored under `k`, if any.
/// Nothing is assumed of the value; callers check it.
#[verifier::external_body]
fn table_get(t: &NodeTable, k: &NodeKey) -> Option<Rc<NodeData>> {
    t.map.get(k)
}

/// Relies on `WeakValueHashMap::insert`: stores a weak reference to `v`.
#[verifier::external_body]
fn table_insert(t: &mut NodeTable, k: NodeKey, v: &Rc<NodeData>) {
    t.map.insert(k, Rc::clone(v));
}

/// The node interner together with the memo caches of the operations.
pub struct Engine {
    pub table: NodeTable,
    pub next_id: u64,
    pub empties: Vec<Node>,
    pub steps: Memo,
    pub reduced: Memo,
}

/// Capacity of the memo table of `step`.
pub const STEP_CACHE_SIZE: usize = 16777216;

/// Capacity of the memo table of `reduce_by`.
pub const REDUCE_CACHE_SIZE: usize = 256;

impl Engine {
    /// The interner's invariant: `empties[d]` is the well-formed empty node of
    /// depth `d`, for every depth.
    pub open spec fn inv(&self) -> bool {
        &&& self.empties@.len() == MAX_DEPTH + 1
        &&& forall|d: int|
            0 <= d <= MAX_DEPTH ==> {
                &&& wf(#[trigger] self.empties@[d])
                &&& depth_of(self.empties@[d]) == d
                &&& pop_of(self.empties@[d]) == 0
            }
        &&& self.empties@[0].0.content == Content::Leaf(
            Quad { nw: Block { bits: 0 }, ne: Block { bits: 0 }, sw: Block { bits: 0 }, se: Block { bits: 0 } },
        )
        &&& forall|d: int|
            1 <= d <= MAX_DEPTH ==> (#[trigger] self.empties@[d]).0.content == Content::Inner(
                d as u8,
                Quad {
                    nw: self.empties@[d - 1],
                    ne: self.empties@[d - 1],
                    sw: self.empties@[d - 1],
                    se: self.empties@[d - 1],
                },
            )
        &&& steps_memo_ok(memo_of(self.steps))
        &&& reduce_memo_ok(memo_of(self.reduced))
    }

    /// Whether the empty nodes and the memo tables are those of `o`.
    pub open spec fn same_caches(&self, o: Engine) -> bool {
        &&& self.empties == o.empties
        &&& self.steps == o.steps
        &&& self.reduced == o.reduced
    }

    /// A fresh engine with the empty nodes of every depth made.
    pub fn new() -> (r: Engine)
        ensures
            r.inv(),
    {
        let mut e = Engine {
            table: table_new(),
            next_id: 0,
            empties: Vec::new(),
            steps: memo_new(STEP_CACHE_SIZE),
            reduced: memo_new(REDUCE_CACHE_SIZE),
        };
        let b = Block::empty();
        let leaf = intern(&mut e, Content::Leaf(Quad { nw: b, ne: b, sw: b, se: b }));
        proof {
            reveal_with_fuel(crate::block::bits_count, 65);
        }
        assert(pop_of(leaf) == 0) by {
            assert(b.pop() == 0) by {
                lemma_count_zero(64);
            }
        }
        e.empties.push(leaf);
        let mut d: u8 = 0;
        while d < MAX_DEPTH
            invariant
                d <= MAX_DEPTH,
                e.empties@.len() == d + 1,
                memo_of(e.steps) == Map::<(u64, u64), (Node, Node)>::empty(),
                memo_of(e.reduced) == Map::<(u64, u64), (Node, Node)>::empty(),
                forall|i: int|
                    0 <= i <= d ==> {
                        &&& wf(#[trigger] e.empties@[i])
                        &&& depth_of(e.empties@[i]) == i
                        &&& pop_of(e.empties@[i]) == 0
                    },
                e.empties@[0].0.content == Content::Leaf(
                    Quad { nw: Block { bits: 0 }, ne: Block { bits: 0 }, sw: Block { bits: 0 }, se: Block { bits: 0 } },
                ),
                forall|i: int|
                    1 <= i <= d ==> (#[trigger] e.empties@[i]).0.content == Content::Inner(
                        i as u8,
                        Quad {
                            nw: e.empties@[i - 1],
                            ne: e.empties@[i - 1],
                            sw: e.empties@[i - 1],
                            se: e.empties@[i - 1],
                        },
                    ),
            decreases MAX_DEPTH - d,
        {
            let prev = e.empties[d as usize].dup();
            let q = Quad { nw: prev.dup(), ne: prev.dup(), sw: prev.dup(), se: prev };
            let n = intern(&mut e, Content::Inner(d + 1, q));
            e.empties.push(n);
            d = d + 1;
        }
        e
    }
}

pub proof fn lemma_count_zero(n: nat)
    requires
        n <= 64,
    ensures
        crate::block::bits_count(0u64, n) == 0,
    decreases n,
{
    if n > 0 {
        lemma_count_zero((n - 1) as nat);
        let i = (n - 1) as u64;
        assert((0u64 >> i) & 1 == 0) by (bit_vector);
    }
}

/// A block with no live cell has no bit set.
pub proof fn lemma_block_pop_zero(b: Block)
    requires
        b.pop() == 0,
    ensures
        b.bits == 0,
{
    let x = b.bits;
    assert forall|n: u64| n <= 63 implies (x & vstd::prelude::sub(1u64 << n, 1u64)) == 0 by {
        lemma_low_bits_zero(x, n);
    }
    let n = 63u64;
    assert(crate::block::bits_count(x, 64) == crate::block::bits_count(x, 63) + if crate::block::bit_set(x, 63) { 1nat } else { 0nat });
    lemma_count_mono(x, 63);
    assert((x >> 63u64) & 1 != 1);
    assert((x & vstd::prelude::sub(1u64 << n, 1u64)) == 0 && (x >> n) & 1 != 1 && n == 63 ==> x == 0) by (bit_vector);
}

proof fn lemma_count_mono(x: u64, n: nat)
    requires
        n <= 64,
    ensures
        forall|m: nat| m <= n ==> crate::block::bits_count(x, m) <= crate::block::bits_count(x, n),
    decreases n,
{
    if n > 0 {
        lemma_count_mono(x, (n - 1) as nat);
    }
}

proof fn lemma_low_bits_zero(x: u64, n: u64)
    requires
        n <= 63,
        crate::block::bits_count(x, 64) == 0,
    ensures
        (x & vstd::prelude::sub(1u64 << n, 1u64)) == 0,
    decreases n,
{
    lemma_count_mono(x, 64);
    if n == 0 {
        assert((x & vstd::prelude::sub(1u64 << 0u64, 1u64)) == 0) by (bit_vector);
    } else {
        let m = (n - 1) as u64;
        lemma_low_bits_zero(x, m);
        assert(crate::block::bits_count(x, n as nat) == crate::block::bits_count(x, m as nat) + if crate::block::bit_set(x, m as int) { 1nat } else { 0nat });
        assert((x >> m) & 1 != 1);
        assert(m < 63 && (x & vstd::prelude::sub(1u64 << m, 1u64)) == 0 && (x >> m) & 1 != 1 ==> (x & vstd::prelude::sub(1u64 << vstd::prelude::add(m, 1u64), 1u64)) == 0) by (bit_vector);
    }
}

/// Number of live cells of a block.
pub fn block_population(b: Block) -> (r: u64)
    ensures
        r == b.pop(),
{
    let bits = b.bits;
    let mut c: u64 = 0;
    let mut i: u64 = 0;
    while i < 64
        invariant
            i <= 64,
            c == crate::block::bits_count(bits, i as nat),
            c <= i,
        decreases 64 - i,
    {
        if (bits >> i) & 1 == 1 {
            c = c + 1;
        }
        i = i + 1;
    }
    c
}

/// Adds two counts, saturating at `u64::MAX`.
fn add_sat(a: u64, b: u64, Ghost(x): Ghost<nat>, Ghost(y): Ghost<nat>) -> (r: u64)
    requires
        a == sat(x),
        b == sat(y),
    ensures
        r == sat(x + y),
{
    a.saturating_add(b)
}

/// The saturated population of content whose children are well formed.
fn content_population(data: &Content) -> (r: u64)
    requires
        content_ok(*data),
    ensures
        r == sat(
            match *data {
                Content::Leaf(q) => quad_pop_blocks(q),
                Content::Inner(_, q) => quad_pop_nodes(q),
            },
        ),
{
    match data {
        Content::Leaf(q) => {
            let a = block_population(q.nw);
            let b = block_population(q.ne);
            let c = block_population(q.sw);
            let d = block_population(q.se);
            let ab = add_sat(a, b, Ghost(q.nw.pop()), Ghost(q.ne.pop()));
            let abc = add_sat(ab, c, Ghost(q.nw.pop() + q.ne.pop()), Ghost(q.sw.pop()));
            add_sat(abc, d, Ghost(q.nw.pop() + q.ne.pop() + q.sw.pop()), Ghost(q.se.pop()))
        },
        Content::Inner(_, q) => {
            let ab = add_sat(
                q.nw.0.population,
                q.ne.0.population,
                Ghost(pop_of(q.nw)),
                Ghost(pop_of(q.ne)),
            );
            let abc = add_sat(
                ab,
                q.sw.0.population,
                Ghost(pop_of(q.nw) + pop_of(q.ne)),
                Ghost(pop_of(q.sw)),
            );
            add_sat(
                abc,
                q.se.0.population,
                Ghost(pop_of(q.nw) + pop_of(q.ne) + pop_of(q.sw)),
                Ghost(pop_of(q.se)),
            )
        },
    }
}

/// The interning key of content.
fn key_of(data: &Content) -> NodeKey {
    match data {
        Content::Leaf(q) => (0, q.nw.bits, q.ne.bits, q.sw.bits, q.se.bits),
        Content::Inner(d, q) => (*d, q.nw.0.id, q.ne.0.id, q.sw.0.id, q.se.0.id),
    }
}

/// Whether two nodes are equal values; handles of one allocation answer at
/// once, and differing identity numbers answer at once.
pub fn node_eq(a: &Node, b: &Node) -> (r: bool)
    ensures
        r == (*a == *b),
    decreases *a,
{
    if same_alloc(&a.0, &b.0) {
        true
    } else if a.0.id != b.0.id || a.0.population != b.0.population {
        false
    } else {
        let r = content_eq(&a.0.content, &b.0.content);
        if r {
            assert(*a.0 == *b.0);
        }
        r
    }
}

/// Whether two contents are equal values.
pub fn content_eq(a: &Content, b: &Content) -> (r: bool)
    ensures
        r == (*a == *b),
    decreases *a,
{
    match (a, b) {
        (Content::Leaf(x), Content::Leaf(y)) => {
            x.nw.bits == y.nw.bits && x.ne.bits == y.ne.bits && x.sw.bits == y.sw.bits
                && x.se.bits == y.se.bits
        },
        (Content::Inner(dx, x), Content::Inner(dy, y)) => {
            *dx == *dy && node_eq(&x.nw, &y.nw) && node_eq(&x.ne, &y.ne) && node_eq(&x.sw, &y.sw)
                && node_eq(&x.se, &y.se)
        },
        _ => false,
    }
}

/// Makes the node with content `data`, returning the live node of equal
/// content if the table holds one.
pub fn intern(e: &mut Engine, data: Content) -> (r: Node)
    requires
        content_ok(data),
    ensures
        r.0.content == data,
        wf(r),
        final(e).same_caches(*old(e)),
{
    let pop = content_population(&data);
    let key = key_of(&data);
    match table_get(&e.table, &key) {
        Some(rc) => {
            if rc.population == pop && content_eq(&rc.content, &data) {
                let n = Node(rc);
                assert(pop_of(n) == match data {
                    Content::Leaf(q) => quad_pop_blocks(q),
                    Content::Inner(_, q) => quad_pop_nodes(q),
                });
                return n;
            }
        },
        None => {},
    }
    let id = e.next_id;
    e.next_id = e.next_id.wrapping_add(1);
    let rc = Rc::new(NodeData { content: data, population: pop, id });
    table_insert(&mut e.table, key, &rc);
    let n = Node(rc);
    assert(pop_of(n) == match data {
        Content::Leaf(q) => quad_pop_blocks(q),
        Content::Inner(_, q) => quad_pop_nodes(q),
    });
    n
}

impl PartialEq for Node {
    fn eq(&self, other: &Node) -> (r: bool) {
        node_eq(self, other)
    }
}

impl vstd::std_specs::cmp::PartialEqSpecImpl for Node {
    open spec fn obeys_eq_spec() -> bool {
        true
    }

    open spec fn eq_spec(&self, other: &Node) -> bool {
        *self == *other
    }
}

impl Eq for Node {

}

/// Half the width of a node of depth `d`.
pub open spec fn half_width_spec(d: nat) -> int {
    pow2(d + 3) as int
}

/// Whether `(x, y)` lies in a square of half width `h` centred on the origin.
pub open spec fn in_square(h: int, x: int, y: int) -> bool {
    -h <= x < h && -h <= y < h
}

/// Whether the cell `(x, y)` of a block, in block coordinates `-4..4`, is alive.
pub open spec fn block_alive(b: Block, x: int, y: int) -> bool {
    in_square(4, x, y) && b.cell(y + 4, x + 4)
}

/// Whether the cell `(x, y)` of a node is alive; the node is centred on the
/// origin and every cell outside it is dead.
pub open spec fn alive(n: Node, x: int, y: int) -> bool
    decreases n,
{
    match n.0.content {
        Content::Leaf(q) => in_square(8, x, y) && block_alive(
            q.at(quadrant_of(x, y)),
            re_center_spec(x, 4),
            re_center_spec(y, 4),
        ),
        Content::Inner(d, q) => {
            let h = half_width_spec(d as nat);
            in_square(h, x, y) && alive(
                q.at(quadrant_of(x, y)),
                re_center_spec(x, h / 2),
                re_center_spec(y, h / 2),
            )
        },
    }
}

impl Node {
    /// Another handle to this node.
    pub fn dup(&self) -> (r: Node)
        ensures
            r == *self,
    {
        Node(share(&self.0))
    }

    /// The node with content `data`, shared with any live node of equal content.
    pub fn new(e: &mut Engine, data: DepthQuad<Block, Node>) -> (r: Node)
        requires
            content_ok(content_of(data)),
        ensures
            r.0.content == content_of(data),
            wf(r),
            final(e).same_caches(*old(e)),
    {
        let c = match data {
            DepthQuad::Leaf(q) => Content::Leaf(q),
            DepthQuad::Inner(d, q) => Content::Inner(d, q),
        };
        intern(e, c)
    }

    /// The leaf node of four blocks.
    pub fn new_leaf(e: &mut Engine, data: Quad<Block>) -> (r: Node)
        ensures
            r.0.content == Content::Leaf(data),
            wf(r),
            final(e).same_caches(*old(e)),
    {
        intern(e, Content::Leaf(data))
    }

    /// The inner node of four children of one depth.
    pub fn new_inner(e: &mut Engine, data: Quad<Node>) -> (r: Node)
        requires
            depth_of(data.nw) < MAX_DEPTH,
            children_ok(data, depth_of(data.nw)),
        ensures
            r.0.content == Content::Inner((depth_of(data.nw) + 1) as u8, data),
            wf(r),
            depth_of(r) == depth_of(data.nw) + 1,
            final(e).same_caches(*old(e)),
    {
        let d = data.nw.depth() + 1;
        intern(e, Content::Inner(d, data))
    }

    /// The inner node of depth `depth` with four children one level down.
    pub fn new_depth_inner(e: &mut Engine, depth: u8, data: Quad<Node>) -> (r: Node)
        requires
            1 <= depth <= MAX_DEPTH,
            children_ok(data, (depth - 1) as nat),
        ensures
            r.0.content == Content::Inner(depth, data),
            wf(r),
            depth_of(r) == depth,
            final(e).same_caches(*old(e)),
    {
        intern(e, Content::Inner(depth, data))
    }

    /// The node of depth `depth` with no live cell.
    pub fn empty(e: &Engine, depth: u8) -> (r: Node)
        requires
            e.inv(),
            depth <= MAX_DEPTH,
        ensures
            r == e.empties@[depth as int],
            wf(r),
            depth_of(r) == depth,
            pop_of(r) == 0,
    {
        e.empties[depth as usize].dup()
    }

    /// The content as a [`DepthQuad`].
    pub fn depth_quad(&self) -> (r: DepthQuad<Block, Node>)
        ensures
            content_of(r) == self.0.content,
    {
        match &self.0.content {
            Content::Leaf(q) => DepthQuad::Leaf(*q),
            Content::Inner(d, q) => DepthQuad::Inner(
                *d,
                Quad { nw: q.nw.dup(), ne: q.ne.dup(), sw: q.sw.dup(), se: q.se.dup() },
            ),
        }
    }

    pub fn depth(&self) -> (r: u8)
        ensures
            r == depth_of(*self),
    {
        match &self.0.content {
            Content::Leaf(_) => 0,
            Content::Inner(d, _) => *d,
        }
    }

    /// Log2 of the width: `depth + 4`.
    pub fn width_log2(&self) -> (r: u8)
        requires
            wf(*self),
        ensures
            r == depth_of(*self) + MIN_WIDTH_LOG2,
    {
        self.depth() + MIN_WIDTH_LOG2
    }

    /// The width in cells, `2^(depth + 4)`.
    pub fn width(&self) -> (r: u64)
        requires
            wf(*self),
        ensures
            r == 2 * half_width_spec(depth_of(*self)),
    {
        let l = self.width_log2();
        proof {
            lemma_pow2_fits(l as nat);
            vstd::arithmetic::power2::lemma_pow2_unfold(l as nat);
        }
        1u64 << l as u64
    }

    /// Half the width in cells, `2^(depth + 3)`.
    pub fn half_width(&self) -> (r: i64)
        requires
            wf(*self),
        ensures
            r == half_width_spec(depth_of(*self)),
            8 <= r,
    {
        let l = self.width_log2() - 1;
        proof {
            lemma_pow2_fits(l as nat);
            vstd::arithmetic::power2::lemma_pow2_pos(l as nat);
            if l > 3 {
                vstd::arithmetic::power2::lemma_pow2_strictly_increases(3, l as nat);
            }
            if l < 57 {
                vstd::arithmetic::power2::lemma_pow2_strictly_increases(l as nat, 57);
            }
            vstd::arithmetic::power2::lemma2_to64();
            vstd::arithmetic::power2::lemma2_to64_rest();
        }
        (1u64 << l as u64) as i64
    }

    /// The four blocks of a leaf.
    pub fn leaf(&self) -> (r: Option<&Quad<Block>>)
        ensures
            match self.0.content {
                Content::Leaf(q) => r == Some(&q),
                Content::Inner(..) => r is None,
            },
    {
        match &self.0.content {
            Content::Leaf(q) => Some(q),
            Content::Inner(_, _) => None,
        }
    }

    /// The four children of an inner node.
    pub fn inner(&self) -> (r: Option<&Quad<Node>>)
        ensures
            match self.0.content {
                Content::Leaf(_) => r is None,
                Content::Inner(_, q) => r == Some(&q),
            },
    {
        match &self.0.content {
            Content::Leaf(_) => None,
            Content::Inner(_, q) => Some(q),
        }
    }

    /// The number of live cells, saturated at `u64::MAX`.
    pub fn population(&self) -> (r: u64)
        requires
            wf(*self),
        ensures
            r == sat(pop_of(*self)),
    {
        self.0.population
    }

    /// Whether no cell is alive.
    pub fn is_empty(&self) -> (r: bool)
        requires
            wf(*self),
        ensures
            r == (pop_of(*self) == 0),
    {
        self.0.population == 0
    }
}

/// `2^l` fits in a `u64` shift for `l < 64`.
pub proof fn lemma_pow2_fits(l: nat)
    requires
        l < 64,
    ensures
        pow2(l) <= pow2(63),
        (1u64 << l as u64) == pow2(l),
{
    if l < 63 {
        vstd::arithmetic::power2::lemma_pow2_strictly_increases(l, 63);
    }
    vstd::arithmetic::power2::lemma2_to64();
    vstd::arithmetic::power2::lemma2_to64_rest();
    vstd::arithmetic::power2::lemma_pow2_pos(l);
    assert(pow2(63) == 0x8000_0000_0000_0000);
    assert(l as u64 as nat == l);
    assert(1u64 * pow2(l) <= u64::MAX);
    vstd::bits::lemma_u64_shl_is_mul(1, l as u64);
}

/// The content that a [`DepthQuad`] names.
pub open spec fn content_of(d: DepthQuad<Block, Node>) -> Content {
    match d {
        DepthQuad::Leaf(q) => Content::Leaf(q),
        DepthQuad::Inner(dd, q) => Content::Inner(dd, q),
    }
}

} // verus!
