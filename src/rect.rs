//! Inclusive axis-aligned rectangles of cells.
use vstd::prelude::*;

use crate::pos::Pos;

verus! {

/// An inclusive range `min..=max` of one axis; empty when `max < min`.
#[derive(Clone, Copy, Debug, PartialEq, Eq, Structural)]
pub struct Side {
    pub min: i64,
    pub max: i64,
}

pub open spec fn min_i(a: int, b: int) -> int {
    if a <= b {
        a
    } else {
        b
    }
}

pub open spec fn max_i(a: int, b: int) -> int {
    if a >= b {
        a
    } else {
        b
    }
}

/// The floor of the average of `a` and `b`.
pub open spec fn mid_spec(a: int, b: int) -> int {
    (a + b) / 2
}

impl Side {
    pub fn min_max(min: i64, max: i64) -> (r: Side)
        ensures
            r == (Side { min, max }),
    {
        Side { min, max }
    }

    /// The range between `a` and `b`, in either order.
    pub fn new(a: i64, b: i64) -> (r: Side)
        ensures
            r.min == min_i(a as int, b as int),
            r.max == max_i(a as int, b as int),
    {
        if a <= b {
            Side { min: a, max: b }
        } else {
            Side { min: b, max: a }
        }
    }

    pub fn just(a: i64) -> (r: Side)
        ensures
            r == (Side { min: a, max: a }),
    {
        Side { min: a, max: a }
    }

    pub fn is_empty(&self) -> (r: bool)
        ensures
            r == (self.max < self.min),
    {
        self.max < self.min
    }

    pub open spec fn contains(self, v: int) -> bool {
        self.min <= v <= self.max
    }

    /// The floor of the average of the two ends.
    pub fn mid(&self) -> (r: i64)
        ensures
            r == mid_spec(self.min as int, self.max as int),
    {
        let s: i128 = self.min as i128 + self.max as i128;
        let r: i128 = if s >= 0 {
            s / 2
        } else {
            -((-s + 1) / 2)
        };
        assert(r == s / 2);
        r as i64
    }

    /// Grows the range to hold `a`.
    pub fn extend(&mut self, a: i64)
        ensures
            final(self).min == min_i(old(self).min as int, a as int),
            final(self).max == max_i(old(self).max as int, a as int),
    {
        if a < self.min {
            self.min = a;
        }
        if a > self.max {
            self.max = a;
        }
    }

    /// Grows the range to the ends of both.
    pub fn union(&mut self, other: Side)
        ensures
            final(self).min == min_i(old(self).min as int, other.min as int),
            final(self).max == max_i(old(self).max as int, other.max as int),
    {
        if other.min < self.min {
            self.min = other.min;
        }
        if other.max > self.max {
            self.max = other.max;
        }
    }

    /// Shrinks the range to what both hold.
    pub fn intersection(&mut self, other: Side)
        ensures
            final(self).min == max_i(old(self).min as int, other.min as int),
            final(self).max == min_i(old(self).max as int, other.max as int),
            forall|v: int| final(self).contains(v) <==> (old(self).contains(v) && other.contains(v)),
    {
        if other.min > self.min {
            self.min = other.min;
        }
        if other.max < self.max {
            self.max = other.max;
        }
    }

    /// Moves both ends by `a`.
    pub fn offset(&mut self, a: i64)
        requires
            i64::MIN <= old(self).min + a <= i64::MAX,
            i64::MIN <= old(self).max + a <= i64::MAX,
        ensures
            final(self).min == old(self).min + a,
            final(self).max == old(self).max + a,
    {
        self.min = self.min + a;
        self.max = self.max + a;
    }
}

/// A rectangle that holds its `min` and `max` corners; empty when either
/// side is empty. North is low y, west is low x.
#[derive(Clone, Copy, Debug, PartialEq, Eq, Structural)]
pub struct Rect {
    pub x: Side,
    pub y: Side,
}

impl Rect {
    /// Whether the rectangle holds the cell `(x, y)`.
    pub open spec fn contains(self, x: int, y: int) -> bool {
        self.x.contains(x) && self.y.contains(y)
    }

    pub open spec fn empty_spec(self) -> bool {
        self.x.max < self.x.min || self.y.max < self.y.min
    }

    /// The rectangle that holds every cell.
    pub fn everything() -> (r: Rect)
        ensures
            r == (Rect {
                x: Side { min: i64::MIN, max: i64::MAX },
                y: Side { min: i64::MIN, max: i64::MAX },
            }),
            forall|x: int, y: int| i64::MIN <= x <= i64::MAX && i64::MIN <= y <= i64::MAX ==> r.contains(x, y),
    {
        Rect::symetric_min_max(i64::MIN, i64::MAX)
    }

    /// The rectangle that holds no cell.
    pub fn nothing() -> (r: Rect)
        ensures
            r == (Rect {
                x: Side { min: i64::MAX, max: i64::MIN },
                y: Side { min: i64::MAX, max: i64::MIN },
            }),
            r.empty_spec(),
    {
        Rect::symetric_min_max(i64::MAX, i64::MIN)
    }

    pub fn from_sides(x: Side, y: Side) -> (r: Rect)
        ensures
            r == (Rect { x, y }),
    {
        Rect { x, y }
    }

    /// The square `min..=max` on both axes.
    pub fn symetric_min_max(min: i64, max: i64) -> (r: Rect)
        ensures
            r == (Rect { x: Side { min, max }, y: Side { min, max } }),
    {
        let side = Side::min_max(min, max);
        Rect::from_sides(side, side)
    }

    pub fn min_max(min: Pos, max: Pos) -> (r: Rect)
        ensures
            r == (Rect { x: Side { min: min.x, max: max.x }, y: Side { min: min.y, max: max.y } }),
    {
        Rect::from_sides(Side::min_max(min.x, max.x), Side::min_max(min.y, max.y))
    }

    /// The smallest rectangle that holds both `a` and `b`.
    pub fn new(a: Pos, b: Pos) -> (r: Rect)
        ensures
            r.x.min == min_i(a.x as int, b.x as int),
            r.x.max == max_i(a.x as int, b.x as int),
            r.y.min == min_i(a.y as int, b.y as int),
            r.y.max == max_i(a.y as int, b.y as int),
    {
        Rect::from_sides(Side::new(a.x, b.x), Side::new(a.y, b.y))
    }

    /// The rectangle of the single cell `a`.
    pub fn just(a: Pos) -> (r: Rect)
        ensures
            r == (Rect { x: Side { min: a.x, max: a.x }, y: Side { min: a.y, max: a.y } }),
    {
        Rect::from_sides(Side::just(a.x), Side::just(a.y))
    }

    pub fn is_empty(&self) -> (r: bool)
        ensures
            r == self.empty_spec(),
            r <==> forall|x: int, y: int| !self.contains(x, y),
    {
        let r = self.x.is_empty() || self.y.is_empty();
        if !r {
            assert(self.contains(self.x.min as int, self.y.min as int));
        }
        r
    }

    pub fn north(&self) -> (r: i64)
        ensures
            r == self.y.min,
    {
        self.y.min
    }

    pub fn south(&self) -> (r: i64)
        ensures
            r == self.y.max,
    {
        self.y.max
    }

    pub fn west(&self) -> (r: i64)
        ensures
            r == self.x.min,
    {
        self.x.min
    }

    pub fn east(&self) -> (r: i64)
        ensures
            r == self.x.max,
    {
        self.x.max
    }

    pub fn set_north(&mut self, value: i64)
        ensures
            *final(self) == (Rect { y: Side { min: value, ..old(self).y }, ..*old(self) }),
    {
        self.y.min = value;
    }

    pub fn set_south(&mut self, value: i64)
        ensures
            *final(self) == (Rect { y: Side { max: value, ..old(self).y }, ..*old(self) }),
    {
        self.y.max = value;
    }

    pub fn set_west(&mut self, value: i64)
        ensures
            *final(self) == (Rect { x: Side { min: value, ..old(self).x }, ..*old(self) }),
    {
        self.x.min = value;
    }

    pub fn set_east(&mut self, value: i64)
        ensures
            *final(self) == (Rect { x: Side { max: value, ..old(self).x }, ..*old(self) }),
    {
        self.x.max = value;
    }

    pub fn nw(&self) -> (r: Pos)
        ensures
            r == (Pos { x: self.x.min, y: self.y.min }),
    {
        Pos::new(self.x.min, self.y.min)
    }

    pub fn nc(&self) -> (r: Pos)
        ensures
            r.x == mid_spec(self.x.min as int, self.x.max as int),
            r.y == self.y.min,
    {
        Pos::new(self.x.mid(), self.y.min)
    }

    pub fn ne(&self) -> (r: Pos)
        ensures
            r == (Pos { x: self.x.max, y: self.y.min }),
    {
        Pos::new(self.x.max, self.y.min)
    }

    pub fn cw(&self) -> (r: Pos)
        ensures
            r.x == self.x.min,
            r.y == mid_spec(self.y.min as int, self.y.max as int),
    {
        Pos::new(self.x.min, self.y.mid())
    }

    pub fn cc(&self) -> (r: Pos)
        ensures
            r.x == mid_spec(self.x.min as int, self.x.max as int),
            r.y == mid_spec(self.y.min as int, self.y.max as int),
    {
        Pos::new(self.x.mid(), self.y.mid())
    }

    pub fn ce(&self) -> (r: Pos)
        ensures
            r.x == self.x.max,
            r.y == mid_spec(self.y.min as int, self.y.max as int),
    {
        Pos::new(self.x.max, self.y.mid())
    }

    pub fn sw(&self) -> (r: Pos)
        ensures
            r == (Pos { x: self.x.min, y: self.y.max }),
    {
        Pos::new(self.x.min, self.y.max)
    }

    pub fn sc(&self) -> (r: Pos)
        ensures
            r.x == mid_spec(self.x.min as int, self.x.max as int),
            r.y == self.y.max,
    {
        Pos::new(self.x.mid(), self.y.max)
    }

    pub fn se(&self) -> (r: Pos)
        ensures
            r == (Pos { x: self.x.max, y: self.y.max }),
    {
        Pos::new(self.x.max, self.y.max)
    }

    /// Grows the rectangle to hold `pos`.
    pub fn extend(&mut self, pos: Pos)
        ensures
            final(self).x.min == min_i(old(self).x.min as int, pos.x as int),
            final(self).x.max == max_i(old(self).x.max as int, pos.x as int),
            final(self).y.min == min_i(old(self).y.min as int, pos.y as int),
            final(self).y.max == max_i(old(self).y.max as int, pos.y as int),
    {
        self.x.extend(pos.x);
        self.y.extend(pos.y);
    }

    /// Grows the rectangle to the bounds of both.
    pub fn union(&mut self, rect: Rect)
        ensures
            final(self).x.min == min_i(old(self).x.min as int, rect.x.min as int),
            final(self).x.max == max_i(old(self).x.max as int, rect.x.max as int),
            final(self).y.min == min_i(old(self).y.min as int, rect.y.min as int),
            final(self).y.max == max_i(old(self).y.max as int, rect.y.max as int),
    {
        self.x.union(rect.x);
        self.y.union(rect.y);
    }

    /// Shrinks the rectangle to the cells that both hold.
    pub fn intersection(&mut self, rect: Rect)
        ensures
            final(self).x.min == max_i(old(self).x.min as int, rect.x.min as int),
            final(self).x.max == min_i(old(self).x.max as int, rect.x.max as int),
            final(self).y.min == max_i(old(self).y.min as int, rect.y.min as int),
            final(self).y.max == min_i(old(self).y.max as int, rect.y.max as int),
            forall|x: int, y: int|
                final(self).contains(x, y) <==> (old(self).contains(x, y) && rect.contains(x, y)),
    {
        self.x.intersection(rect.x);
        self.y.intersection(rect.y);
    }

    /// Moves the rectangle by `pos`.
    pub fn offset(&mut self, pos: Pos)
        requires
            i64::MIN <= old(self).x.min + pos.x <= i64::MAX,
            i64::MIN <= old(self).x.max + pos.x <= i64::MAX,
            i64::MIN <= old(self).y.min + pos.y <= i64::MAX,
            i64::MIN <= old(self).y.max + pos.y <= i64::MAX,
        ensures
            final(self).x.min == old(self).x.min + pos.x,
            final(self).x.max == old(self).x.max + pos.x,
            final(self).y.min == old(self).y.min + pos.y,
            final(self).y.max == old(self).y.max + pos.y,
    {
        self.x.offset(pos.x);
        self.y.offset(pos.y);
    }
}

} // verus!
