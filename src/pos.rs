//! Cell positions.
use vstd::prelude::*;

use crate::quad::Quadrant;

verus! {

/// A cell position; x increases to the east, y to the south.
#[derive(Clone, Copy, Debug, PartialEq, Eq, Structural, Hash)]
pub struct Pos {
    pub x: i64,
    pub y: i64,
}

impl Pos {
    pub fn new(x: i64, y: i64) -> (r: Pos)
        ensures
            r == (Pos { x, y }),
    {
        Pos { x, y }
    }

    /// The position `dist` away from the origin on each axis, towards `q`.
    pub fn in_dir(q: Quadrant, dist: i64) -> (r: Pos)
        requires
            dist > i64::MIN,
        ensures
            r.x == if q.is_west() { -dist } else { dist as int },
            r.y == if q.is_north() { -dist } else { dist as int },
    {
        Pos { x: if q.west() { -dist } else { dist }, y: if q.north() { -dist } else { dist } }
    }

    /// Moves each coordinate `amount` closer to zero (a negative coordinate
    /// by `+amount`, any other by `-amount`).
    pub fn re_center(self, amount: i64) -> (r: Pos)
        requires
            0 <= amount,
            self.x < 0 ==> self.x + amount <= i64::MAX,
            self.y < 0 ==> self.y + amount <= i64::MAX,
            self.x >= 0 ==> self.x - amount >= i64::MIN,
            self.y >= 0 ==> self.y - amount >= i64::MIN,
        ensures
            r.x == re_center_spec(self.x as int, amount as int),
            r.y == re_center_spec(self.y as int, amount as int),
    {
        Pos {
            x: if self.x < 0 { self.x + amount } else { self.x - amount },
            y: if self.y < 0 { self.y + amount } else { self.y - amount },
        }
    }

    /// Applies `f` to both coordinates.
    pub fn map<F: Fn(i64) -> i64>(self, f: F) -> (r: Pos)
        requires
            f.requires((self.x,)),
            f.requires((self.y,)),
        ensures
            f.ensures((self.x,), r.x),
            f.ensures((self.y,), r.y),
    {
        Pos { x: f(self.x), y: f(self.y) }
    }
}

/// A coordinate moved `amount` closer to zero.
pub open spec fn re_center_spec(v: int, amount: int) -> int {
    if v < 0 {
        v + amount
    } else {
        v - amount
    }
}

} // verus!
