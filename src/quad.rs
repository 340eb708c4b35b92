//! Four-way products that name the quadrants of a square.
use vstd::prelude::*;

use crate::pos::Pos;

verus! {

/// One of the four quadrants of a square, in the fixed order NW, NE, SW, SE.
#[derive(Clone, Copy, Debug, PartialEq, Eq, Structural, Hash)]
pub enum Quadrant {
    NW,
    NE,
    SW,
    SE,
}

impl Quadrant {
    /// The quadrant that holds `pos`: north when `y < 0`, west when `x < 0`.
    pub fn from_pos(pos: &Pos) -> (r: Quadrant)
        ensures
            r == quadrant_of(pos.x as int, pos.y as int),
    {
        if pos.y < 0 {
            if pos.x < 0 {
                Quadrant::NW
            } else {
                Quadrant::NE
            }
        } else {
            if pos.x < 0 {
                Quadrant::SW
            } else {
                Quadrant::SE
            }
        }
    }

    /// The diagonally opposite quadrant.
    pub fn opposite(&self) -> (r: Quadrant)
        ensures
            r.is_west() != self.is_west(),
            r.is_north() != self.is_north(),
    {
        match self {
            Quadrant::NW => Quadrant::SE,
            Quadrant::NE => Quadrant::SW,
            Quadrant::SW => Quadrant::NE,
            Quadrant::SE => Quadrant::NW,
        }
    }

    /// All four quadrants, in iteration order.
    pub fn iter_all() -> (r: [Quadrant; 4])
        ensures
            r@ == seq![Quadrant::NW, Quadrant::NE, Quadrant::SW, Quadrant::SE],
    {
        [Quadrant::NW, Quadrant::NE, Quadrant::SW, Quadrant::SE]
    }

    pub open spec fn is_west(self) -> bool {
        self is NW || self is SW
    }

    pub open spec fn is_north(self) -> bool {
        self is NW || self is NE
    }

    pub fn west(&self) -> (r: bool)
        ensures
            r == self.is_west(),
    {
        matches!(self, Quadrant::NW | Quadrant::SW)
    }

    pub fn north(&self) -> (r: bool)
        ensures
            r == self.is_north(),
    {
        matches!(self, Quadrant::NW | Quadrant::NE)
    }
}

/// The quadrant of a square centred on the origin that holds `(x, y)`.
pub open spec fn quadrant_of(x: int, y: int) -> Quadrant {
    if y < 0 {
        if x < 0 {
            Quadrant::NW
        } else {
            Quadrant::NE
        }
    } else {
        if x < 0 {
            Quadrant::SW
        } else {
            Quadrant::SE
        }
    }
}

/// Four values, one per quadrant.
#[derive(Clone, Copy, Debug, PartialEq, Eq, Structural, Hash)]
pub struct Quad<T> {
    pub nw: T,
    pub ne: T,
    pub sw: T,
    pub se: T,
}

impl<T> Quad<T> {
    pub fn new(nw: T, ne: T, sw: T, se: T) -> (r: Quad<T>)
        ensures
            r == (Quad { nw, ne, sw, se }),
    {
        Quad { nw, ne, sw, se }
    }

    /// The value in quadrant `q`.
    pub open spec fn at(self, q: Quadrant) -> T {
        match q {
            Quadrant::NW => self.nw,
            Quadrant::NE => self.ne,
            Quadrant::SW => self.sw,
            Quadrant::SE => self.se,
        }
    }

    /// The value in quadrant `q`.
    pub fn get(&self, q: Quadrant) -> (r: &T)
        ensures
            *r == self.at(q),
    {
        match q {
            Quadrant::NW => &self.nw,
            Quadrant::NE => &self.ne,
            Quadrant::SW => &self.sw,
            Quadrant::SE => &self.se,
        }
    }

    /// Replaces the value in quadrant `q`.
    pub fn set(&mut self, q: Quadrant, v: T)
        ensures
            final(self).at(q) == v,
            forall|p: Quadrant| p != q ==> final(self).at(p) == old(self).at(p),
    {
        match q {
            Quadrant::NW => self.nw = v,
            Quadrant::NE => self.ne = v,
            Quadrant::SW => self.sw = v,
            Quadrant::SE => self.se = v,
        }
    }

    /// References to the four values.
    pub fn as_ref(&self) -> (r: Quad<&T>)
        ensures
            *r.nw == self.nw,
            *r.ne == self.ne,
            *r.sw == self.sw,
            *r.se == self.se,
    {
        Quad { nw: &self.nw, ne: &self.ne, sw: &self.sw, se: &self.se }
    }

    /// Applies `f` to each value.
    pub fn map<U, F: Fn(T) -> U>(self, f: F) -> (r: Quad<U>)
        requires
            forall|t: T| f.requires((t,)),
        ensures
            f.ensures((self.nw,), r.nw),
            f.ensures((self.ne,), r.ne),
            f.ensures((self.sw,), r.sw),
            f.ensures((self.se,), r.se),
    {
        Quad { nw: f(self.nw), ne: f(self.ne), sw: f(self.sw), se: f(self.se) }
    }

    /// Applies `f` to each value together with its quadrant.
    pub fn index_map<U, F: Fn(Quadrant, T) -> U>(self, f: F) -> (r: Quad<U>)
        requires
            forall|q: Quadrant, t: T| f.requires((q, t)),
        ensures
            f.ensures((Quadrant::NW, self.nw), r.nw),
            f.ensures((Quadrant::NE, self.ne), r.ne),
            f.ensures((Quadrant::SW, self.sw), r.sw),
            f.ensures((Quadrant::SE, self.se), r.se),
    {
        Quad {
            nw: f(Quadrant::NW, self.nw),
            ne: f(Quadrant::NE, self.ne),
            sw: f(Quadrant::SW, self.sw),
            se: f(Quadrant::SE, self.se),
        }
    }
}

impl<T: Copy> Quad<T> {
    /// Places each value at the inside corner of a 2x2 of quads whose other
    /// cells hold `empty`.
    pub fn expand(self, empty: T) -> (r: Quad<Quad<T>>)
        ensures
            r == expand_spec(self, empty),
    {
        Quad {
            nw: Quad { nw: empty, ne: empty, sw: empty, se: self.nw },
            ne: Quad { nw: empty, ne: empty, sw: self.ne, se: empty },
            sw: Quad { nw: empty, ne: self.sw, sw: empty, se: empty },
            se: Quad { nw: self.se, ne: empty, sw: empty, se: empty },
        }
    }
}

/// Each value at the inside corner of its own quad, the rest `empty`.
pub open spec fn expand_spec<T>(q: Quad<T>, empty: T) -> Quad<Quad<T>> {
    Quad {
        nw: Quad { nw: empty, ne: empty, sw: empty, se: q.nw },
        ne: Quad { nw: empty, ne: empty, sw: q.ne, se: empty },
        sw: Quad { nw: empty, ne: q.sw, sw: empty, se: empty },
        se: Quad { nw: q.se, ne: empty, sw: empty, se: empty },
    }
}

/// The inner corners of a 2x2 of quads: the quad centred on their meeting point.
pub open spec fn center_spec<T>(q: Quad<Quad<T>>) -> Quad<T> {
    Quad { nw: q.nw.se, ne: q.ne.sw, sw: q.sw.ne, se: q.se.nw }
}

/// The content of a quadtree node: four leaf values at depth 0, or four
/// children at a depth of at least 1.
#[derive(Clone, Copy, Debug, PartialEq, Eq, Structural, Hash)]
pub enum DepthQuad<L, I> {
    Leaf(Quad<L>),
    Inner(u8, Quad<I>),
}

impl<L, I> DepthQuad<L, I> {
    pub open spec fn depth_spec(self) -> nat {
        match self {
            DepthQuad::Leaf(_) => 0,
            DepthQuad::Inner(d, _) => d as nat,
        }
    }

    pub fn depth(&self) -> (r: u8)
        ensures
            r == self.depth_spec(),
    {
        match self {
            DepthQuad::Leaf(_) => 0,
            DepthQuad::Inner(d, _) => *d,
        }
    }

    pub fn leaf(&self) -> (r: Option<&Quad<L>>)
        ensures
            match self {
                DepthQuad::Leaf(q) => r == Some(q),
                DepthQuad::Inner(..) => r is None,
            },
    {
        match self {
            DepthQuad::Leaf(q) => Some(q),
            DepthQuad::Inner(_, _) => None,
        }
    }

    pub fn inner(&self) -> (r: Option<&Quad<I>>)
        ensures
            match self {
                DepthQuad::Leaf(_) => r is None,
                DepthQuad::Inner(_, q) => r == Some(q),
            },
    {
        match self {
            DepthQuad::Leaf(_) => None,
            DepthQuad::Inner(_, q) => Some(q),
        }
    }
}

} // verus!
