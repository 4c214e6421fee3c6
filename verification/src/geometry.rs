use vstd::prelude::*;

verus! {

/// Compass direction a connector may leave a shape in.
#[derive(Copy, Clone, PartialEq, Eq, Debug, Structural)]
pub enum BasicCardinalPoint {
    North,
    East,
    South,
    West,
}

/// Classification of the relative position of two points: same y (Horizontal),
/// same x (Vertical), or neither (Other). Only Horizontal/Vertical pairs may be
/// joined by a routing-graph edge.
#[derive(Copy, Clone, PartialEq, Eq, Debug, Structural)]
pub enum Direction {
    Vertical,
    Horizontal,
    Other,
}

/// The side of a rectangle a connector point is attached to.
#[derive(Copy, Clone, PartialEq, Eq, Debug, Structural)]
pub enum Side {
    Top,
    Right,
    Bottom,
    Left,
}

/// Direction of a bend in a polyline, when one can be named.
#[derive(Copy, Clone, PartialEq, Eq, Debug, Structural)]
pub enum BendDirection {
    Cardinal(BasicCardinalPoint),
    Unknown,
}

/// Integer coordinate in the plane; doubles as the key of a routing-graph node.
#[derive(Copy, Clone, PartialEq, Eq, Hash, Debug, Structural)]
pub struct Point {
    pub x: i32,
    pub y: i32,
}

/// Integer width and height; non-negative by convention.
#[derive(Copy, Clone, PartialEq, Eq, Debug, Structural)]
pub struct Size {
    pub width: i32,
    pub height: i32,
}

/// A straight segment between two points.
#[derive(Copy, Clone, PartialEq, Eq, Debug, Structural)]
pub struct Line {
    pub a: Point,
    pub b: Point,
}

/// An axis-aligned rectangle given by its top-left corner and its size.
#[derive(Copy, Clone, PartialEq, Eq, Debug, Structural)]
pub struct Rect {
    pub origin: Point,
    pub size: Size,
}

pub fn make_size(width: i32, height: i32) -> (s: Size)
    ensures
        s.width == width,
        s.height == height,
{
    Size { width, height }
}

pub fn make_point(x: i32, y: i32) -> (p: Point)
    ensures
        p.x == x,
        p.y == y,
{
    Point { x, y }
}

/// Same y means Horizontal, same x means Vertical, anything else is Other;
/// a pair that agrees in both coordinates counts as Horizontal.
pub fn direction_of(a: &Point, b: &Point) -> (d: Direction)
    ensures
        d == (if a.y == b.y {
            Direction::Horizontal
        } else if a.x == b.x {
            Direction::Vertical
        } else {
            Direction::Other
        }),
{
    if a.y == b.y {
        Direction::Horizontal
    } else if a.x == b.x {
        Direction::Vertical
    } else {
        Direction::Other
    }
}

/// True when the two points can be joined by a purely horizontal or purely
/// vertical segment.
pub open spec fn aligned(a: Point, b: Point) -> bool {
    a.x == b.x || a.y == b.y
}

/// True when the three points lie on one horizontal or one vertical line.
pub open spec fn collinear(a: Point, b: Point, c: Point) -> bool {
    (a.x == b.x && b.x == c.x) || (a.y == b.y && b.y == c.y)
}

pub open spec fn min_int(a: int, b: int) -> int {
    if a <= b {
        a
    } else {
        b
    }
}

pub open spec fn max_int(a: int, b: int) -> int {
    if a >= b {
        a
    } else {
        b
    }
}

/// Bound on every coordinate this library computes with; inputs are kept well
/// inside it so that derived values (margined edges, extruded points) never
/// overflow `i32`.
pub open spec fn coord_ok(v: int) -> bool {
    -1_000_000 <= v <= 1_000_000
}

pub open spec fn rect_left(r: Rect) -> int {
    r.origin.x as int
}

pub open spec fn rect_top(r: Rect) -> int {
    r.origin.y as int
}

pub open spec fn rect_right(r: Rect) -> int {
    r.origin.x + r.size.width
}

pub open spec fn rect_bot(r: Rect) -> int {
    r.origin.y + r.size.height
}

/// Well-formed rectangle: non-negative size, all four edges within the
/// coordinate budget.
pub open spec fn rect_ok(r: Rect) -> bool {
    &&& r.size.width >= 0
    &&& r.size.height >= 0
    &&& coord_ok(rect_left(r))
    &&& coord_ok(rect_right(r))
    &&& coord_ok(rect_top(r))
    &&& coord_ok(rect_bot(r))
}

/// Inclusive containment of a point, boundary included.
pub open spec fn rect_has_point(r: Rect, p: Point) -> bool {
    rect_left(r) <= p.x <= rect_right(r) && rect_top(r) <= p.y <= rect_bot(r)
}

/// Open-interval overlap of two rectangles: rectangles that only touch along
/// an edge do not intersect.
pub open spec fn rects_intersect(s: Rect, o: Rect) -> bool {
    &&& rect_left(o) < rect_right(s)
    &&& rect_left(s) < rect_right(o)
    &&& rect_top(o) < rect_bot(s)
    &&& rect_top(s) < rect_bot(o)
}

/// An axis-aligned segment from `a` to `b` meets the interior (not merely the
/// boundary) of rectangle `r`. A rectangle with an empty interior is never cut.
/// Points that agree in both coordinates fall under the horizontal case, which
/// then asks whether the single point is strictly inside.
pub open spec fn seg_cuts(a: Point, b: Point, r: Rect) -> bool {
    if a.y == b.y {
        &&& rect_left(r) < rect_right(r)
        &&& rect_top(r) < a.y < rect_bot(r)
        &&& max_int(a.x as int, b.x as int) > rect_left(r)
        &&& min_int(a.x as int, b.x as int) < rect_right(r)
    } else if a.x == b.x {
        &&& rect_top(r) < rect_bot(r)
        &&& rect_left(r) < a.x < rect_right(r)
        &&& max_int(a.y as int, b.y as int) > rect_top(r)
        &&& min_int(a.y as int, b.y as int) < rect_bot(r)
    } else {
        true
    }
}

/// Decides `seg_cuts` for an axis-aligned segment.
pub fn segment_cuts_rect(a: &Point, b: &Point, r: &Rect) -> (res: bool)
    requires
        aligned(*a, *b),
        rect_ok(*r),
        coord_ok(a.x as int) && coord_ok(a.y as int),
        coord_ok(b.x as int) && coord_ok(b.y as int),
    ensures
        res == seg_cuts(*a, *b, *r),
{
    let left: i32 = r.origin.x;
    let right: i32 = r.origin.x + r.size.width;
    let top: i32 = r.origin.y;
    let bot: i32 = r.origin.y + r.size.height;
    if a.y == b.y {
        let lo: i32 = if a.x <= b.x {
            a.x
        } else {
            b.x
        };
        let hi: i32 = if a.x >= b.x {
            a.x
        } else {
            b.x
        };
        left < right && top < a.y && a.y < bot && hi > left && lo < right
    } else {
        let lo: i32 = if a.y <= b.y {
            a.y
        } else {
            b.y
        };
        let hi: i32 = if a.y >= b.y {
            a.y
        } else {
            b.y
        };
        top < bot && left < a.x && a.x < right && hi > top && lo < bot
    }
}

/// Merging two collinear obstacle-free segments keeps them obstacle-free: the
/// segment from `a` to `c` covers no more of the line than the two pieces
/// through `b` did.
pub proof fn lemma_cut_merge(a: Point, b: Point, c: Point, r: Rect)
    requires
        collinear(a, b, c),
        !seg_cuts(a, b, r),
        !seg_cuts(b, c, r),
    ensures
        !seg_cuts(a, c, r),
{
}

/// Growing a rectangle's margin only grows what a segment can cut: a segment
/// that cuts the rectangle also cuts any symmetric inflation of it.
pub proof fn lemma_cut_monotone(a: Point, b: Point, r: Rect, q: Rect)
    requires
        rect_left(q) <= rect_left(r),
        rect_right(r) <= rect_right(q),
        rect_top(q) <= rect_top(r),
        rect_bot(r) <= rect_bot(q),
        seg_cuts(a, b, r),
        aligned(a, b),
    ensures
        seg_cuts(a, b, q),
{
}

/// Smallest and largest value of a non-empty slice.
pub fn min_max(x: &[i32]) -> (r: (i32, i32))
    requires
        x@.len() > 0,
    ensures
        forall|i: int| 0 <= i < x@.len() ==> r.0 <= x@[i] && x@[i] <= r.1,
        exists|i: int| 0 <= i < x@.len() && x@[i] == r.0,
        exists|i: int| 0 <= i < x@.len() && x@[i] == r.1,
{
    let mut lo: i32 = x[0];
    let mut hi: i32 = x[0];
    let mut k: usize = 1;
    while k < x.len()
        invariant
            1 <= k <= x@.len(),
            forall|i: int| 0 <= i < k ==> lo <= x@[i] && x@[i] <= hi,
            exists|i: int| 0 <= i < k && x@[i] == lo,
            exists|i: int| 0 <= i < k && x@[i] == hi,
        decreases x@.len() - k,
    {
        let v: i32 = x[k];
        if v < lo {
            lo = v;
        }
        if v > hi {
            hi = v;
        }
        k = k + 1;
    }
    (lo, hi)
}

impl Rect {
    /// Rectangle spanning the given edges; the caller supplies `left <= right`
    /// and `top <= bottom` whenever a well-formed rectangle is wanted, but any
    /// in-budget edges are accepted, as a degenerate line or point is permitted.
    pub fn from_ltrb(left: i32, top: i32, right: i32, bottom: i32) -> (r: Rect)
        requires
            coord_ok(left as int),
            coord_ok(top as int),
            coord_ok(right as int),
            coord_ok(bottom as int),
        ensures
            rect_left(r) == left,
            rect_top(r) == top,
            rect_right(r) == right,
            rect_bot(r) == bottom,
    {
        Rect { origin: Point { x: left, y: top }, size: Size { width: right - left, height: bottom - top } }
    }

    pub fn size(&self) -> (s: Size)
        ensures
            s == self.size,
    {
        self.size
    }

    pub fn location(&self) -> (p: Point)
        ensures
            p == self.origin,
    {
        self.origin
    }

    pub fn left(&self) -> (v: i32)
        ensures
            v as int == rect_left(*self),
    {
        self.origin.x
    }

    pub fn right(&self) -> (v: i32)
        requires
            coord_ok(rect_left(*self)),
            coord_ok(rect_right(*self)),
        ensures
            v as int == rect_right(*self),
    {
        self.origin.x + self.size.width
    }

    pub fn top(&self) -> (v: i32)
        ensures
            v as int == rect_top(*self),
    {
        self.origin.y
    }

    pub fn bottom(&self) -> (v: i32)
        requires
            coord_ok(rect_top(*self)),
            coord_ok(rect_bot(*self)),
        ensures
            v as int == rect_bot(*self),
    {
        self.origin.y + self.size.height
    }

    pub fn width(&self) -> (v: i32)
        ensures
            v == self.size.width,
    {
        self.size.width
    }

    pub fn height(&self) -> (v: i32)
        ensures
            v == self.size.height,
    {
        self.size.height
    }

    pub fn north_east(&self) -> (p: Point)
        requires
            rect_ok(*self),
        ensures
            p.x as int == rect_right(*self),
            p.y as int == rect_top(*self),
    {
        make_point(self.right(), self.top())
    }

    pub fn south_east(&self) -> (p: Point)
        requires
            rect_ok(*self),
        ensures
            p.x as int == rect_right(*self),
            p.y as int == rect_bot(*self),
    {
        make_point(self.right(), self.bottom())
    }

    pub fn south_west(&self) -> (p: Point)
        requires
            rect_ok(*self),
        ensures
            p.x as int == rect_left(*self),
            p.y as int == rect_bot(*self),
    {
        make_point(self.left(), self.bottom())
    }

    pub fn north_west(&self) -> (p: Point)
        requires
            rect_ok(*self),
        ensures
            p.x as int == rect_left(*self),
            p.y as int == rect_top(*self),
    {
        make_point(self.left(), self.top())
    }

    /// Midpoint of the right side.
    pub fn east(&self) -> (p: Point)
        requires
            rect_ok(*self),
        ensures
            p.x as int == rect_right(*self),
            p.y as int == rect_top(*self) + self.size.height / 2,
    {
        make_point(self.right(), self.center().y)
    }

    /// Midpoint of the top side.
    pub fn north(&self) -> (p: Point)
        requires
            rect_ok(*self),
        ensures
            p.x as int == rect_left(*self) + self.size.width / 2,
            p.y as int == rect_top(*self),
    {
        make_point(self.center().x, self.top())
    }

    /// Midpoint of the bottom side.
    pub fn south(&self) -> (p: Point)
        requires
            rect_ok(*self),
        ensures
            p.x as int == rect_left(*self) + self.size.width / 2,
            p.y as int == rect_bot(*self),
    {
        make_point(self.center().x, self.bottom())
    }

    /// Midpoint of the left side.
    pub fn west(&self) -> (p: Point)
        requires
            rect_ok(*self),
        ensures
            p.x as int == rect_left(*self),
            p.y as int == rect_top(*self) + self.size.height / 2,
    {
        make_point(self.left(), self.center().y)
    }

    /// Inclusive containment, boundary included on all four edges.
    pub fn contains(&self, p: &Point) -> (res: bool)
        requires
            rect_ok(*self),
        ensures
            res == rect_has_point(*self, *p),
    {
        p.x >= self.left() && p.x <= self.right() && p.y >= self.top() && p.y <= self.bottom()
    }

    /// Grows the rectangle by `horizontal` on the left and right and by
    /// `vertical` on the top and bottom; negative arguments shrink it.
    pub fn inflate(&self, horizontal: i32, vertical: i32) -> (r: Rect)
        requires
            coord_ok(rect_left(*self)),
            coord_ok(rect_right(*self)),
            coord_ok(rect_top(*self)),
            coord_ok(rect_bot(*self)),
            coord_ok(rect_left(*self) - horizontal),
            coord_ok(rect_right(*self) + horizontal),
            coord_ok(rect_top(*self) - vertical),
            coord_ok(rect_bot(*self) + vertical),
        ensures
            rect_left(r) == rect_left(*self) - horizontal,
            rect_right(r) == rect_right(*self) + horizontal,
            rect_top(r) == rect_top(*self) - vertical,
            rect_bot(r) == rect_bot(*self) + vertical,
    {
        Rect::from_ltrb(
            self.left() - horizontal,
            self.top() - vertical,
            self.right() + horizontal,
            self.bottom() + vertical,
        )
    }

    /// Open-interval overlap: rectangles that only touch along an edge do not
    /// count as intersecting.
    pub fn intersects(&self, other: &Rect) -> (res: bool)
        requires
            rect_ok(*self),
            rect_ok(*other),
        ensures
            res == rects_intersect(*self, *other),
    {
        let this_x: i32 = self.left();
        let this_y: i32 = self.top();
        let this_w: i32 = self.width();
        let this_h: i32 = self.height();
        let rect_x: i32 = other.left();
        let rect_y: i32 = other.top();
        let rect_w: i32 = other.width();
        let rect_h: i32 = other.height();
        (rect_x < this_x + this_w) && (this_x < (rect_x + rect_w)) && (rect_y < this_y + this_h)
            && (this_y < rect_y + rect_h)
    }

    /// Minimal rectangle containing both.
    pub fn union(&self, r: &Rect) -> (u: Rect)
        requires
            rect_ok(*self),
            rect_ok(*r),
        ensures
            rect_left(u) == min_int(rect_left(*self), rect_left(*r)),
            rect_right(u) == max_int(rect_right(*self), rect_right(*r)),
            rect_top(u) == min_int(rect_top(*self), rect_top(*r)),
            rect_bot(u) == max_int(rect_bot(*self), rect_bot(*r)),
            rect_ok(u),
    {
        let x: [i32; 4] = [self.left(), self.right(), r.left(), r.right()];
        let y: [i32; 4] = [self.top(), self.bottom(), r.top(), r.bottom()];
        let (min_x, max_x) = min_max(&x);
        let (min_y, max_y) = min_max(&y);
        Rect::from_ltrb(min_x, min_y, max_x, max_y)
    }

    /// Center point, halving towards the top-left on odd sizes.
    pub fn center(&self) -> (p: Point)
        requires
            rect_ok(*self),
        ensures
            p.x as int == rect_left(*self) + self.size.width / 2,
            p.y as int == rect_top(*self) + self.size.height / 2,
    {
        make_point(self.left() + self.width() / 2, self.top() + self.height() / 2)
    }
}

} // verus!
