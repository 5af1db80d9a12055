//! Points, sizes and pixel rectangles. `x` grows to the right and `y`
//! downwards; a rectangle covers the pixels from its top left corner up to,
//! but not including, that corner moved by its size.

use vstd::prelude::*;

verus! {

/// A pixel position.
#[derive(Clone, Copy, Debug, PartialEq, Eq, Structural)]
pub struct Point {
    pub x: i32,
    pub y: i32,
}

/// An extent in pixels.
#[derive(Clone, Copy, Debug, PartialEq, Eq, Structural)]
pub struct Size {
    pub width: u32,
    pub height: u32,
}

/// An axis-aligned block of pixels.
#[derive(Clone, Copy, Debug, PartialEq, Eq, Structural)]
pub struct Rect {
    pub top_left: Point,
    pub size: Size,
}

impl Rect {
    /// First column covered.
    pub open spec fn left(&self) -> int {
        self.top_left.x as int
    }

    /// First row covered.
    pub open spec fn top(&self) -> int {
        self.top_left.y as int
    }

    /// First column to the right of the rectangle.
    pub open spec fn right(&self) -> int {
        self.top_left.x + self.size.width
    }

    /// First row below the rectangle.
    pub open spec fn bottom(&self) -> int {
        self.top_left.y + self.size.height
    }

    /// Whether the pixel at (`x`, `y`) lies in the rectangle.
    pub open spec fn covers(&self, x: int, y: int) -> bool {
        self.left() <= x < self.right() && self.top() <= y < self.bottom()
    }

    /// Number of pixels covered.
    pub open spec fn area(&self) -> int {
        self.size.width * self.size.height
    }

    /// Whether no pixel is covered.
    pub open spec fn is_empty(&self) -> bool {
        self.size.width == 0 || self.size.height == 0
    }

    /// Whether every pixel of `self` is a pixel of `outer`.
    pub open spec fn within(&self, outer: Rect) -> bool {
        self.is_empty() || (outer.left() <= self.left() && self.right() <= outer.right()
            && outer.top() <= self.top() && self.bottom() <= outer.bottom())
    }

    /// Position, counted row by row from the top left corner, of the covered
    /// pixel (`x`, `y`).
    pub open spec fn index_of(&self, x: int, y: int) -> int {
        (y - self.top()) * self.size.width + (x - self.left())
    }

    /// The rectangle with the given corner and size.
    pub fn new(x: i32, y: i32, width: u32, height: u32) -> (r: Rect)
        ensures
            r == (Rect { top_left: Point { x, y }, size: Size { width, height } }),
    {
        Rect { top_left: Point { x, y }, size: Size { width, height } }
    }

    /// The rectangle at the origin that covers nothing.
    pub fn zero() -> (r: Rect)
        ensures
            r == (Rect { top_left: Point { x: 0, y: 0 }, size: Size { width: 0, height: 0 } }),
            r.is_empty(),
    {
        Rect::new(0, 0, 0, 0)
    }

    /// Whether `p` lies in the rectangle.
    pub fn contains(&self, p: Point) -> (inside: bool)
        ensures
            inside == self.covers(p.x as int, p.y as int),
    {
        let px: i64 = p.x as i64;
        let py: i64 = p.y as i64;
        let left: i64 = self.top_left.x as i64;
        let top: i64 = self.top_left.y as i64;
        let right: i64 = left + self.size.width as i64;
        let bottom: i64 = top + self.size.height as i64;
        left <= px && px < right && top <= py && py < bottom
    }

    /// The pixels common to both rectangles, as a rectangle; the zero
    /// rectangle where there are none.
    pub open spec fn meet(&self, other: Rect) -> Rect {
        let left = if self.left() >= other.left() { self.left() } else { other.left() };
        let top = if self.top() >= other.top() { self.top() } else { other.top() };
        let right = if self.right() <= other.right() { self.right() } else { other.right() };
        let bottom = if self.bottom() <= other.bottom() { self.bottom() } else { other.bottom() };
        if left < right && top < bottom {
            Rect {
                top_left: Point { x: left as i32, y: top as i32 },
                size: Size { width: (right - left) as u32, height: (bottom - top) as u32 },
            }
        } else {
            Rect { top_left: Point { x: 0, y: 0 }, size: Size { width: 0, height: 0 } }
        }
    }

    /// The pixels common to both rectangles; the zero rectangle where there
    /// are none.
    pub fn intersection(&self, other: &Rect) -> (r: Rect)
        ensures
            r == self.meet(*other),
            forall|x: int, y: int| r.covers(x, y) <==> self.covers(x, y) && other.covers(x, y),
            r.within(*self),
            r.within(*other),
    {
        let l1: i64 = self.top_left.x as i64;
        let t1: i64 = self.top_left.y as i64;
        let r1: i64 = l1 + self.size.width as i64;
        let b1: i64 = t1 + self.size.height as i64;
        let l2: i64 = other.top_left.x as i64;
        let t2: i64 = other.top_left.y as i64;
        let r2: i64 = l2 + other.size.width as i64;
        let b2: i64 = t2 + other.size.height as i64;
        let left: i64 = if l1 >= l2 { l1 } else { l2 };
        let top: i64 = if t1 >= t2 { t1 } else { t2 };
        let right: i64 = if r1 <= r2 { r1 } else { r2 };
        let bottom: i64 = if b1 <= b2 { b1 } else { b2 };
        proof {
            lemma_meet_covers(*self, *other);
        }
        if left < right && top < bottom {
            Rect::new(left as i32, top as i32, (right - left) as u32, (bottom - top) as u32)
        } else {
            Rect::zero()
        }
    }
}

/// The meet of two rectangles covers exactly the pixels that both cover, and
/// lies within each.
pub proof fn lemma_meet_covers(a: Rect, b: Rect)
    ensures
        forall|x: int, y: int| a.meet(b).covers(x, y) <==> a.covers(x, y) && b.covers(x, y),
        a.meet(b).within(a),
        a.meet(b).within(b),
        a.meet(b).is_empty() <==> (forall|x: int, y: int| !(a.covers(x, y) && b.covers(x, y))),
{
    let m = a.meet(b);
    if !m.is_empty() {
        assert(a.covers(m.left(), m.top()) && b.covers(m.left(), m.top()));
    }
}

} // verus!
