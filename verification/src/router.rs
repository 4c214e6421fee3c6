use vstd::prelude::*;

use crate::geometry::{
    aligned, collinear, make_point, rect_bot, rect_left, rect_ok, rect_right, rect_top, seg_cuts,
    Line, Point, Rect, Side,
};

verus! {

/// The exact boundary location where a connector leaves or enters a shape: a
/// side of the shape plus an absolute offset along that side, counted from the
/// side's top or left end.
#[derive(Copy, Clone, PartialEq, Eq, Debug, Structural)]
pub struct ConnectorPoint {
    pub shape: Rect,
    pub side: Side,
    pub distance: i32,
}

/// One routing request: the two connector points, the clearance margin kept
/// around each shape, and an optional bounding region (itself grown by its own
/// margin) that the whole route must stay inside.
#[derive(Copy, Clone, Debug)]
pub struct OrthogonalConnectorOpts {
    pub point_a: ConnectorPoint,
    pub point_b: ConnectorPoint,
    pub shape_margin: i32,
    pub global_bounds_margin: i32,
    pub global_bounds: Option<Rect>,
}

/// The response: the ruler coordinates, the routable grid cells, the candidate
/// waypoints, and the final polyline as a chain of axis-aligned segments.
#[derive(Debug)]
pub struct OrthogonalConnectorByproduct {
    pub h_rulers: Vec<i32>,
    pub v_rulers: Vec<i32>,
    pub spots: Vec<Point>,
    pub grid: Vec<Rect>,
    pub connections: Vec<Line>,
}

/// Why a request produced no path.
#[derive(Copy, Clone, PartialEq, Eq, Debug, Structural)]
pub enum RoutingError {
    /// Malformed input: a connector offset outside its side, or bounds that
    /// exclude a connector point.
    InvalidConfiguration,
    /// The waypoint graph holds no path between the two connector points.
    Unroutable,
}

/// Point with the given mathematical coordinates (meaningful when both fit).
pub open spec fn spec_pt(x: int, y: int) -> Point {
    Point { x: x as i32, y: y as i32 }
}

/// Rectangle with the given mathematical edges (meaningful when all fit).
pub open spec fn spec_rect(l: int, t: int, r: int, b: int) -> Rect {
    Rect {
        origin: Point { x: l as i32, y: t as i32 },
        size: crate::geometry::Size { width: (r - l) as i32, height: (b - t) as i32 },
    }
}

/// Length of the side the connector is attached to.
pub open spec fn side_span(cp: ConnectorPoint) -> int {
    match cp.side {
        Side::Top | Side::Bottom => cp.shape.size.width as int,
        Side::Left | Side::Right => cp.shape.size.height as int,
    }
}

/// The connector offset lies within its side.
pub open spec fn cp_valid(cp: ConnectorPoint) -> bool {
    0 <= cp.distance <= side_span(cp)
}

pub open spec fn resolved_x(cp: ConnectorPoint) -> int {
    match cp.side {
        Side::Top | Side::Bottom => rect_left(cp.shape) + cp.distance,
        Side::Left => rect_left(cp.shape),
        Side::Right => rect_right(cp.shape),
    }
}

pub open spec fn resolved_y(cp: ConnectorPoint) -> int {
    match cp.side {
        Side::Top => rect_top(cp.shape),
        Side::Bottom => rect_bot(cp.shape),
        Side::Left | Side::Right => rect_top(cp.shape) + cp.distance,
    }
}

pub open spec fn extruded_x(cp: ConnectorPoint, m: int) -> int {
    match cp.side {
        Side::Top | Side::Bottom => resolved_x(cp),
        Side::Left => rect_left(cp.shape) - m,
        Side::Right => rect_right(cp.shape) + m,
    }
}

pub open spec fn extruded_y(cp: ConnectorPoint, m: int) -> int {
    match cp.side {
        Side::Top => rect_top(cp.shape) - m,
        Side::Bottom => rect_bot(cp.shape) + m,
        Side::Left | Side::Right => resolved_y(cp),
    }
}

/// The connector point's resolved boundary location.
pub open spec fn loc_of(cp: ConnectorPoint) -> Point {
    spec_pt(resolved_x(cp), resolved_y(cp))
}

/// The resolved location pushed outward from the shape by the margin, clear of
/// the shape's margined bounds.
pub open spec fn ext_of(cp: ConnectorPoint, m: int) -> Point {
    spec_pt(extruded_x(cp, m), extruded_y(cp, m))
}

impl ConnectorPoint {
    /// Whether the offset lies within the side it is measured along.
    pub fn is_valid(&self) -> (res: bool)
        ensures
            res == cp_valid(*self),
    {
        let span: i32 = match self.side {
            Side::Top | Side::Bottom => self.shape.size.width,
            Side::Left | Side::Right => self.shape.size.height,
        };
        0 <= self.distance && self.distance <= span
    }

    /// The exact boundary point the connector attaches to.
    pub fn resolve(&self) -> (p: Point)
        requires
            rect_ok(self.shape),
            cp_valid(*self),
        ensures
            p.x as int == resolved_x(*self),
            p.y as int == resolved_y(*self),
            p == loc_of(*self),
    {
        match self.side {
            Side::Top => make_point(self.shape.origin.x + self.distance, self.shape.origin.y),
            Side::Bottom => make_point(
                self.shape.origin.x + self.distance,
                self.shape.origin.y + self.shape.size.height,
            ),
            Side::Left => make_point(self.shape.origin.x, self.shape.origin.y + self.distance),
            Side::Right => make_point(
                self.shape.origin.x + self.shape.size.width,
                self.shape.origin.y + self.distance,
            ),
        }
    }

    /// The resolved point moved outward, away from the shape, by `margin`.
    pub fn extruded(&self, margin: i32) -> (p: Point)
        requires
            rect_ok(self.shape),
            cp_valid(*self),
            0 <= margin <= 500_000,
        ensures
            p.x as int == extruded_x(*self, margin as int),
            p.y as int == extruded_y(*self, margin as int),
            p == ext_of(*self, margin as int),
    {
        let base = self.resolve();
        match self.side {
            Side::Top => make_point(base.x, base.y - margin),
            Side::Bottom => make_point(base.x, base.y + margin),
            Side::Left => make_point(base.x - margin, base.y),
            Side::Right => make_point(base.x + margin, base.y),
        }
    }
}

/// Open overlap of two boxes given by their edges.
pub open spec fn boxes_meet(
    l1: int,
    t1: int,
    r1: int,
    b1: int,
    l2: int,
    t2: int,
    r2: int,
    b2: int,
) -> bool {
    l2 < r1 && l1 < r2 && t2 < b1 && t1 < b2
}

/// The cell overlaps the shape's bounds inflated by margin `m` (the test that
/// excludes a grid cell from the routable area).
pub open spec fn cell_blocked_by(c: Rect, shape: Rect, m: int) -> bool {
    boxes_meet(
        rect_left(c),
        rect_top(c),
        rect_right(c),
        rect_bot(c),
        rect_left(shape) - m,
        rect_top(shape) - m,
        rect_right(shape) + m,
        rect_bot(shape) + m,
    )
}

/// Monotonic margin effect: growing the clearance margin never frees a cell.
/// A cell excluded as an obstacle at the smaller margin is excluded at the
/// larger one too, so the routable area can only shrink.
pub proof fn lemma_margin_monotone(c: Rect, shape: Rect, m1: int, m2: int)
    requires
        m1 <= m2,
        cell_blocked_by(c, shape, m1),
    ensures
        cell_blocked_by(c, shape, m2),
{
}

/// The shape's bounds inflated by `m` openly overlap the other rectangle.
pub open spec fn margined_box_meets(shape: Rect, m: int, other: Rect) -> bool {
    boxes_meet(
        rect_left(shape) - m,
        rect_top(shape) - m,
        rect_right(shape) + m,
        rect_bot(shape) + m,
        rect_left(other),
        rect_top(other),
        rect_right(other),
        rect_bot(other),
    )
}

/// The escape stub from a connector point to its extruded point leaves the
/// shape outward: it never meets the interior of the connector's own shape.
pub proof fn lemma_stub_clear_own(cp: ConnectorPoint, m: int)
    requires
        rect_ok(cp.shape),
        cp_valid(cp),
        0 <= m <= 500_000,
    ensures
        !seg_cuts(loc_of(cp), ext_of(cp, m), cp.shape),
{
}

/// The escape stub stays within its own shape's margined bounds, so it cannot
/// meet the interior of any rectangle that clears those margined bounds.
pub proof fn lemma_stub_clear_other(cp: ConnectorPoint, m: int, other: Rect)
    requires
        rect_ok(cp.shape),
        rect_ok(other),
        cp_valid(cp),
        0 <= m <= 500_000,
        !margined_box_meets(cp.shape, m, other),
    ensures
        !seg_cuts(loc_of(cp), ext_of(cp, m), other),
{
}

/// The escape stub is axis-aligned.
pub proof fn lemma_stub_aligned(cp: ConnectorPoint, m: int)
    requires
        rect_ok(cp.shape),
        cp_valid(cp),
        0 <= m <= 500_000,
    ensures
        aligned(loc_of(cp), ext_of(cp, m)),
{
}

pub open spec fn margin_of(o: OrthogonalConnectorOpts) -> int {
    o.shape_margin as int
}

pub open spec fn shape_a(o: OrthogonalConnectorOpts) -> Rect {
    o.point_a.shape
}

pub open spec fn shape_b(o: OrthogonalConnectorOpts) -> Rect {
    o.point_b.shape
}

pub open spec fn has_bounds(o: OrthogonalConnectorOpts) -> bool {
    o.global_bounds is Some
}

/// Left edge of the margined bounding region (when one is given).
pub open spec fn bnd_l(o: OrthogonalConnectorOpts) -> int {
    match o.global_bounds {
        Some(g) => rect_left(g) - o.global_bounds_margin,
        None => 0,
    }
}

pub open spec fn bnd_r(o: OrthogonalConnectorOpts) -> int {
    match o.global_bounds {
        Some(g) => rect_right(g) + o.global_bounds_margin,
        None => 0,
    }
}

pub open spec fn bnd_t(o: OrthogonalConnectorOpts) -> int {
    match o.global_bounds {
        Some(g) => rect_top(g) - o.global_bounds_margin,
        None => 0,
    }
}

pub open spec fn bnd_b(o: OrthogonalConnectorOpts) -> int {
    match o.global_bounds {
        Some(g) => rect_bot(g) + o.global_bounds_margin,
        None => 0,
    }
}

pub open spec fn small_coord(v: int) -> bool {
    -100_000 <= v <= 100_000
}

/// Rectangle with non-negative size whose edges stay within the input budget.
pub open spec fn rect_small(r: Rect) -> bool {
    &&& r.size.width >= 0
    &&& r.size.height >= 0
    &&& small_coord(rect_left(r))
    &&& small_coord(rect_right(r))
    &&& small_coord(rect_top(r))
    &&& small_coord(rect_bot(r))
}

/// Machine limits on a request: shapes and bounds within the coordinate
/// budget, margins non-negative and bounded. Everything the router derives
/// from such a request stays well inside `i32`.
pub open spec fn opts_wf(o: OrthogonalConnectorOpts) -> bool {
    &&& rect_small(shape_a(o))
    &&& rect_small(shape_b(o))
    &&& 0 <= o.shape_margin <= 100_000
    &&& 0 <= o.global_bounds_margin <= 100_000
    &&& match o.global_bounds {
        Some(g) => rect_small(g),
        None => true,
    }
}

/// The margined bounding region admits the point (inclusive on all edges).
pub open spec fn bounds_admit(o: OrthogonalConnectorOpts, p: Point) -> bool {
    has_bounds(o) ==> (bnd_l(o) <= p.x <= bnd_r(o) && bnd_t(o) <= p.y <= bnd_b(o))
}

/// A well-configured request: both connector offsets lie on their sides, and
/// the margined bounding region (when given) contains both resolved connector
/// points.
pub open spec fn valid_config(o: OrthogonalConnectorOpts) -> bool {
    &&& cp_valid(o.point_a)
    &&& cp_valid(o.point_b)
    &&& bounds_admit(o, loc_of(o.point_a))
    &&& bounds_admit(o, loc_of(o.point_b))
}

/// The vertical ruler coordinates: margined shape edges, the connector points'
/// own x, and the margined bounds' edges when bounds are given.
pub open spec fn x_candidate(o: OrthogonalConnectorOpts, v: int) -> bool {
    ||| v == rect_left(shape_a(o)) - margin_of(o)
    ||| v == rect_right(shape_a(o)) + margin_of(o)
    ||| v == rect_left(shape_b(o)) - margin_of(o)
    ||| v == rect_right(shape_b(o)) + margin_of(o)
    ||| v == resolved_x(o.point_a)
    ||| v == resolved_x(o.point_b)
    ||| (has_bounds(o) && (v == bnd_l(o) || v == bnd_r(o)))
}

pub open spec fn y_candidate(o: OrthogonalConnectorOpts, v: int) -> bool {
    ||| v == rect_top(shape_a(o)) - margin_of(o)
    ||| v == rect_bot(shape_a(o)) + margin_of(o)
    ||| v == rect_top(shape_b(o)) - margin_of(o)
    ||| v == rect_bot(shape_b(o)) + margin_of(o)
    ||| v == resolved_y(o.point_a)
    ||| v == resolved_y(o.point_b)
    ||| (has_bounds(o) && (v == bnd_t(o) || v == bnd_b(o)))
}

/// Rulers outside the margined bounding region are dropped.
pub open spec fn x_clipped(o: OrthogonalConnectorOpts, v: int) -> bool {
    has_bounds(o) ==> bnd_l(o) <= v <= bnd_r(o)
}

pub open spec fn y_clipped(o: OrthogonalConnectorOpts, v: int) -> bool {
    has_bounds(o) ==> bnd_t(o) <= v <= bnd_b(o)
}

/// The set of distinct vertical ruler coordinates of a request.
pub open spec fn xs_set(o: OrthogonalConnectorOpts) -> Set<int> {
    Set::new(|v: int| x_candidate(o, v) && x_clipped(o, v))
}

/// The set of distinct horizontal ruler coordinates of a request.
pub open spec fn ys_set(o: OrthogonalConnectorOpts) -> Set<int> {
    Set::new(|v: int| y_candidate(o, v) && y_clipped(o, v))
}

/// Every ruler coordinate stays within twice the input budget.
pub proof fn lemma_ruler_range(o: OrthogonalConnectorOpts, v: int)
    requires
        opts_wf(o),
        cp_valid(o.point_a),
        cp_valid(o.point_b),
        xs_set(o).contains(v) || ys_set(o).contains(v),
    ensures
        -200_000 <= v <= 200_000,
{
}

pub open spec fn sorted_strict(s: Seq<i32>) -> bool {
    forall|i: int, j: int| 0 <= i < j < s.len() ==> s[i] < s[j]
}

/// The vector holds exactly the members of the mathematical set.
pub open spec fn seq_matches_set(s: Seq<i32>, t: Set<int>) -> bool {
    &&& forall|i: int| 0 <= i < s.len() ==> t.contains(#[trigger] s[i] as int)
    &&& forall|v: int| #[trigger] t.contains(v) ==> exists|i: int|
        0 <= i < s.len() && s[i] as int == v
}

/// `v1` and `v2` both lie in `t` and no member of `t` lies strictly between.
pub open spec fn adjacent_in(t: Set<int>, v1: int, v2: int) -> bool {
    &&& t.contains(v1)
    &&& t.contains(v2)
    &&& v1 < v2
    &&& forall|z: int| #[trigger] t.contains(z) ==> !(v1 < z && z < v2)
}

/// Consecutive entries of a sorted vector of the set's members are adjacent in
/// the set.
pub proof fn lemma_consecutive_adjacent(s: Seq<i32>, t: Set<int>, i: int)
    requires
        sorted_strict(s),
        seq_matches_set(s, t),
        0 <= i < s.len() - 1,
    ensures
        adjacent_in(t, s[i] as int, s[i + 1] as int),
{
    assert forall|z: int| #[trigger] t.contains(z) implies !((s[i] as int) < z && z < (s[i + 1]
        as int)) by {
        let k = choose|k: int| 0 <= k < s.len() && s[k] as int == z;
        if (s[i] as int) < z && z < (s[i + 1] as int) {
            if k <= i {
                assert(k < i ==> s[k] < s[i]);
            } else {
                assert(i + 1 < k ==> s[i + 1] < s[k]);
            }
        }
    }
}

/// Adjacent members of the set sit at consecutive positions of a sorted vector
/// of its members.
pub proof fn lemma_adjacent_consecutive(s: Seq<i32>, t: Set<int>, v1: int, v2: int)
    requires
        sorted_strict(s),
        seq_matches_set(s, t),
        adjacent_in(t, v1, v2),
    ensures
        exists|i: int| 0 <= i < s.len() - 1 && (#[trigger] s[i]) as int == v1 && s[i + 1] as int == v2,
{
    let i = choose|i: int| 0 <= i < s.len() && s[i] as int == v1;
    let j = choose|j: int| 0 <= j < s.len() && s[j] as int == v2;
    assert(i < j);
    if j > i + 1 {
        assert(t.contains(s[i + 1] as int));
        assert(s[i] < s[i + 1] && s[i + 1] < s[j]);
        assert(false);
    }
    assert(0 <= i < s.len() - 1 && s[i] as int == v1 && s[i + 1] as int == v2);
}

/// Places the value in a sorted vector, keeping it sorted and duplicate-free.
fn insert_ruler(v: &mut Vec<i32>, val: i32)
    requires
        sorted_strict(old(v)@),
        old(v)@.len() < 100,
    ensures
        sorted_strict(final(v)@),
        forall|z: i32| final(v)@.contains(z) <==> (old(v)@.contains(z) || z == val),
        final(v)@.len() <= old(v)@.len() + 1,
{
    let mut i: usize = 0;
    while i < v.len() && v[i] < val
        invariant
            0 <= i <= v@.len(),
            v@ == old(v)@,
            sorted_strict(v@),
            forall|k: int| 0 <= k < i ==> v@[k] < val,
        decreases v@.len() - i,
    {
        i = i + 1;
    }
    if i < v.len() && v[i] == val {
        proof {
            assert(v@.contains(val));
        }
        return ;
    }
    let ghost pre = v@;
    v.insert(i, val);
    proof {
        assert(v@ == pre.subrange(0, i as int).push(val) + pre.subrange(i as int, pre.len() as int));
        assert(v@.len() == pre.len() + 1);
        assert(forall|k: int| 0 <= k < i ==> v@[k] == pre[k]);
        assert(v@[i as int] == val);
        assert(forall|k: int| i < k < v@.len() ==> v@[k] == pre[k - 1]);
        assert forall|z: i32| final(v)@.contains(z) implies (pre.contains(z) || z == val) by {
            let k = choose|k: int| 0 <= k < v@.len() && v@[k] == z;
            if k < i {
                assert(pre[k] == z);
            } else if k > i {
                assert(pre[k - 1] == z);
            }
        }
        assert forall|z: i32| (pre.contains(z) || z == val) implies final(v)@.contains(z) by {
            if z == val {
                assert(v@[i as int] == val);
            } else {
                let k = choose|k: int| 0 <= k < pre.len() && pre[k] == z;
                if k < i {
                    assert(v@[k] == z);
                } else {
                    assert(v@[k + 1] == z);
                }
            }
        }
        assert(i < pre.len() ==> pre[i as int] > val);
        assert forall|a: int, b: int| 0 <= a < b < v@.len() implies v@[a] < v@[b] by {
            assert(v@[i as int] == val);
            if a < i {
                assert(v@[a] == pre[a]);
            }
            if b > i {
                assert(v@[b] == pre[b - 1]);
            }
        }
    }
}

/// Adds the value as a ruler unless bounds are given and it falls outside them.
fn push_clipped(v: &mut Vec<i32>, val: i32, clip: bool, lo: i32, hi: i32)
    requires
        sorted_strict(old(v)@),
        old(v)@.len() < 100,
    ensures
        sorted_strict(final(v)@),
        final(v)@.len() <= old(v)@.len() + 1,
        forall|z: i32|
            final(v)@.contains(z) <==> (old(v)@.contains(z) || (z == val && (clip ==> lo <= val
                <= hi))),
{
    if !clip || (lo <= val && val <= hi) {
        insert_ruler(v, val);
    }
}

/// The sorted, deduplicated ruler coordinates of the request: vertical rulers
/// (x values) first, horizontal rulers (y values) second.
fn build_rulers(o: &OrthogonalConnectorOpts) -> (r: (Vec<i32>, Vec<i32>))
    requires
        opts_wf(*o),
        cp_valid(o.point_a),
        cp_valid(o.point_b),
    ensures
        sorted_strict(r.0@),
        sorted_strict(r.1@),
        seq_matches_set(r.0@, xs_set(*o)),
        seq_matches_set(r.1@, ys_set(*o)),
        r.0@.len() <= 8,
        r.1@.len() <= 8,
{
    let m: i32 = o.shape_margin;
    let sa: Rect = o.point_a.shape;
    let sb: Rect = o.point_b.shape;
    let la: Point = o.point_a.resolve();
    let lb: Point = o.point_b.resolve();
    let clip: bool = o.global_bounds.is_some();
    let mut bl: i32 = 0;
    let mut br2: i32 = 0;
    let mut bt: i32 = 0;
    let mut bb2: i32 = 0;
    match &o.global_bounds {
        Some(g) => {
            bl = g.origin.x - o.global_bounds_margin;
            br2 = g.origin.x + g.size.width + o.global_bounds_margin;
            bt = g.origin.y - o.global_bounds_margin;
            bb2 = g.origin.y + g.size.height + o.global_bounds_margin;
        },
        None => {},
    }
    let xa1: i32 = sa.origin.x - m;
    let xa2: i32 = sa.origin.x + sa.size.width + m;
    let xb1: i32 = sb.origin.x - m;
    let xb2: i32 = sb.origin.x + sb.size.width + m;
    let ya1: i32 = sa.origin.y - m;
    let ya2: i32 = sa.origin.y + sa.size.height + m;
    let yb1: i32 = sb.origin.y - m;
    let yb2: i32 = sb.origin.y + sb.size.height + m;

    let mut xs: Vec<i32> = Vec::new();
    push_clipped(&mut xs, xa1, clip, bl, br2);
    push_clipped(&mut xs, xa2, clip, bl, br2);
    push_clipped(&mut xs, xb1, clip, bl, br2);
    push_clipped(&mut xs, xb2, clip, bl, br2);
    push_clipped(&mut xs, la.x, clip, bl, br2);
    push_clipped(&mut xs, lb.x, clip, bl, br2);
    if clip {
        push_clipped(&mut xs, bl, clip, bl, br2);
        push_clipped(&mut xs, br2, clip, bl, br2);
    }

    let mut ys: Vec<i32> = Vec::new();
    push_clipped(&mut ys, ya1, clip, bt, bb2);
    push_clipped(&mut ys, ya2, clip, bt, bb2);
    push_clipped(&mut ys, yb1, clip, bt, bb2);
    push_clipped(&mut ys, yb2, clip, bt, bb2);
    push_clipped(&mut ys, la.y, clip, bt, bb2);
    push_clipped(&mut ys, lb.y, clip, bt, bb2);
    if clip {
        push_clipped(&mut ys, bt, clip, bt, bb2);
        push_clipped(&mut ys, bb2, clip, bt, bb2);
    }

    proof {
        assert forall|i: int| 0 <= i < xs@.len() implies xs_set(*o).contains(
            #[trigger] xs@[i] as int,
        ) by {
            assert(xs@.contains(xs@[i]));
        }
        assert forall|v: int| #[trigger] xs_set(*o).contains(v) implies exists|i: int|
            0 <= i < xs@.len() && xs@[i] as int == v by {
            let z: i32 = if v == xa1 as int {
                xa1
            } else if v == xa2 as int {
                xa2
            } else if v == xb1 as int {
                xb1
            } else if v == xb2 as int {
                xb2
            } else if v == la.x as int {
                la.x
            } else if v == lb.x as int {
                lb.x
            } else if v == bl as int {
                bl
            } else {
                br2
            };
            assert(z as int == v);
            assert(xs@.contains(z));
            let k = choose|k: int| 0 <= k < xs@.len() && xs@[k] == z;
            assert(xs@[k] as int == v);
        }
        assert forall|i: int| 0 <= i < ys@.len() implies ys_set(*o).contains(
            #[trigger] ys@[i] as int,
        ) by {
            assert(ys@.contains(ys@[i]));
        }
        assert forall|v: int| #[trigger] ys_set(*o).contains(v) implies exists|i: int|
            0 <= i < ys@.len() && ys@[i] as int == v by {
            let z: i32 = if v == ya1 as int {
                ya1
            } else if v == ya2 as int {
                ya2
            } else if v == yb1 as int {
                yb1
            } else if v == yb2 as int {
                yb2
            } else if v == la.y as int {
                la.y
            } else if v == lb.y as int {
                lb.y
            } else if v == bt as int {
                bt
            } else {
                bb2
            };
            assert(z as int == v);
            assert(ys@.contains(z));
            let k = choose|k: int| 0 <= k < ys@.len() && ys@[k] == z;
            assert(ys@[k] as int == v);
        }
    }
    (xs, ys)
}

/// The cell between two adjacent rulers on each axis does not overlap either
/// shape's margined bounds, and so belongs to the routable grid.
pub open spec fn is_routable_cell(
    o: OrthogonalConnectorOpts,
    x1: int,
    y1: int,
    x2: int,
    y2: int,
) -> bool {
    &&& adjacent_in(xs_set(o), x1, x2)
    &&& adjacent_in(ys_set(o), y1, y2)
    &&& !boxes_meet(
        x1,
        y1,
        x2,
        y2,
        rect_left(shape_a(o)) - margin_of(o),
        rect_top(shape_a(o)) - margin_of(o),
        rect_right(shape_a(o)) + margin_of(o),
        rect_bot(shape_a(o)) + margin_of(o),
    )
    &&& !boxes_meet(
        x1,
        y1,
        x2,
        y2,
        rect_left(shape_b(o)) - margin_of(o),
        rect_top(shape_b(o)) - margin_of(o),
        rect_right(shape_b(o)) + margin_of(o),
        rect_bot(shape_b(o)) + margin_of(o),
    )
}

/// The rectangle is one of the request's routable grid cells.
pub open spec fn grid_cell_spec(o: OrthogonalConnectorOpts, c: Rect) -> bool {
    exists|x1: int, y1: int, x2: int, y2: int|
        #[trigger] is_routable_cell(o, x1, y1, x2, y2) && c == spec_rect(x1, y1, x2, y2)
}

/// The grid cell spanned by consecutive rulers `ii` and `jj`.
pub open spec fn cell_at(xs: Seq<i32>, ys: Seq<i32>, ii: int, jj: int) -> Rect {
    spec_rect(xs[ii] as int, ys[jj] as int, xs[ii + 1] as int, ys[jj + 1] as int)
}

/// The index-level test that the cell at `(ii, jj)` misses both margined
/// shapes.
pub open spec fn cell_open(
    o: OrthogonalConnectorOpts,
    xs: Seq<i32>,
    ys: Seq<i32>,
    ii: int,
    jj: int,
) -> bool {
    &&& !boxes_meet(
        xs[ii] as int,
        ys[jj] as int,
        xs[ii + 1] as int,
        ys[jj + 1] as int,
        rect_left(shape_a(o)) - margin_of(o),
        rect_top(shape_a(o)) - margin_of(o),
        rect_right(shape_a(o)) + margin_of(o),
        rect_bot(shape_a(o)) + margin_of(o),
    )
    &&& !boxes_meet(
        xs[ii] as int,
        ys[jj] as int,
        xs[ii + 1] as int,
        ys[jj + 1] as int,
        rect_left(shape_b(o)) - margin_of(o),
        rect_top(shape_b(o)) - margin_of(o),
        rect_right(shape_b(o)) + margin_of(o),
        rect_bot(shape_b(o)) + margin_of(o),
    )
}

/// The rectangle is an open cell whose ruler pair comes lexicographically
/// before position `(i, j)` of the double sweep.
pub open spec fn grid_upto(
    o: OrthogonalConnectorOpts,
    xs: Seq<i32>,
    ys: Seq<i32>,
    i: int,
    j: int,
    c: Rect,
) -> bool {
    exists|ii: int, jj: int|
        0 <= ii < xs.len() - 1 && 0 <= jj < ys.len() - 1 && (ii < i || (ii == i && jj < j)) && (
        #[trigger] cell_open(o, xs, ys, ii, jj)) && c == cell_at(xs, ys, ii, jj)
}

/// All routable grid cells, swept left to right and top to bottom.
fn build_cells(
    o: &OrthogonalConnectorOpts,
    xs: &Vec<i32>,
    ys: &Vec<i32>,
    ma: &Rect,
    mb: &Rect,
) -> (grid: Vec<Rect>)
    requires
        opts_wf(*o),
        cp_valid(o.point_a),
        cp_valid(o.point_b),
        sorted_strict(xs@),
        sorted_strict(ys@),
        seq_matches_set(xs@, xs_set(*o)),
        seq_matches_set(ys@, ys_set(*o)),
        xs@.len() <= 8,
        ys@.len() <= 8,
        rect_ok(*ma),
        rect_ok(*mb),
        rect_left(*ma) == rect_left(shape_a(*o)) - margin_of(*o),
        rect_right(*ma) == rect_right(shape_a(*o)) + margin_of(*o),
        rect_top(*ma) == rect_top(shape_a(*o)) - margin_of(*o),
        rect_bot(*ma) == rect_bot(shape_a(*o)) + margin_of(*o),
        rect_left(*mb) == rect_left(shape_b(*o)) - margin_of(*o),
        rect_right(*mb) == rect_right(shape_b(*o)) + margin_of(*o),
        rect_top(*mb) == rect_top(shape_b(*o)) - margin_of(*o),
        rect_bot(*mb) == rect_bot(shape_b(*o)) + margin_of(*o),
    ensures
        forall|c: Rect| #[trigger] grid@.contains(c) <==> grid_cell_spec(*o, c),
        forall|k: int| 0 <= k < grid@.len() ==> rect_ok(#[trigger] grid@[k]),
        grid@.len() <= 64,
{
    let mut grid: Vec<Rect> = Vec::new();
    let mut i: usize = 0;
    while i + 1 < xs.len()
        invariant
            opts_wf(*o),
            cp_valid(o.point_a),
            cp_valid(o.point_b),
            sorted_strict(xs@),
            sorted_strict(ys@),
            seq_matches_set(xs@, xs_set(*o)),
            seq_matches_set(ys@, ys_set(*o)),
            xs@.len() <= 8,
            ys@.len() <= 8,
            rect_ok(*ma),
            rect_ok(*mb),
            rect_left(*ma) == rect_left(shape_a(*o)) - margin_of(*o),
            rect_right(*ma) == rect_right(shape_a(*o)) + margin_of(*o),
            rect_top(*ma) == rect_top(shape_a(*o)) - margin_of(*o),
            rect_bot(*ma) == rect_bot(shape_a(*o)) + margin_of(*o),
            rect_left(*mb) == rect_left(shape_b(*o)) - margin_of(*o),
            rect_right(*mb) == rect_right(shape_b(*o)) + margin_of(*o),
            rect_top(*mb) == rect_top(shape_b(*o)) - margin_of(*o),
            rect_bot(*mb) == rect_bot(shape_b(*o)) + margin_of(*o),
            0 <= i <= xs@.len(),
            forall|c: Rect| #[trigger] grid@.contains(c) <==> grid_upto(*o, xs@, ys@, i as int, 0, c),
            forall|k: int| 0 <= k < grid@.len() ==> rect_ok(#[trigger] grid@[k]),
            grid@.len() <= 8 * i,
        decreases xs@.len() - i,
    {
        let mut j: usize = 0;
        while j + 1 < ys.len()
            invariant
                opts_wf(*o),
                cp_valid(o.point_a),
                cp_valid(o.point_b),
                sorted_strict(xs@),
                sorted_strict(ys@),
                seq_matches_set(xs@, xs_set(*o)),
                seq_matches_set(ys@, ys_set(*o)),
                xs@.len() <= 8,
                ys@.len() <= 8,
                rect_ok(*ma),
                rect_ok(*mb),
                rect_left(*ma) == rect_left(shape_a(*o)) - margin_of(*o),
                rect_right(*ma) == rect_right(shape_a(*o)) + margin_of(*o),
                rect_top(*ma) == rect_top(shape_a(*o)) - margin_of(*o),
                rect_bot(*ma) == rect_bot(shape_a(*o)) + margin_of(*o),
                rect_left(*mb) == rect_left(shape_b(*o)) - margin_of(*o),
                rect_right(*mb) == rect_right(shape_b(*o)) + margin_of(*o),
                rect_top(*mb) == rect_top(shape_b(*o)) - margin_of(*o),
                rect_bot(*mb) == rect_bot(shape_b(*o)) + margin_of(*o),
                0 <= i,
                i + 1 < xs@.len(),
                0 <= j <= ys@.len(),
                forall|c: Rect| #[trigger] grid@.contains(c) <==> grid_upto(
                    *o,
                    xs@,
                    ys@,
                    i as int,
                    j as int,
                    c,
                ),
                forall|k: int| 0 <= k < grid@.len() ==> rect_ok(#[trigger] grid@[k]),
                grid@.len() <= 8 * i + j,
            decreases ys@.len() - j,
        {
            proof {
                lemma_ruler_range(*o, xs@[i as int] as int);
                lemma_ruler_range(*o, xs@[i + 1 as int] as int);
                lemma_ruler_range(*o, ys@[j as int] as int);
                lemma_ruler_range(*o, ys@[j + 1 as int] as int);
            }
            let c: Rect = Rect::from_ltrb(xs[i], ys[j], xs[i + 1], ys[j + 1]);
            let ghost pre = grid@;
            if !c.intersects(ma) && !c.intersects(mb) {
                grid.push(c);
                proof {
                    assert(c == cell_at(xs@, ys@, i as int, j as int));
                    assert(cell_open(*o, xs@, ys@, i as int, j as int));
                    assert forall|c2: Rect| #[trigger] grid@.contains(c2) implies grid_upto(
                        *o,
                        xs@,
                        ys@,
                        i as int,
                        j + 1 as int,
                        c2,
                    ) by {
                        let k = choose|k: int| 0 <= k < grid@.len() && grid@[k] == c2;
                        if k < pre.len() {
                            assert(pre.contains(c2));
                        } else {
                            assert(c2 == c);
                        }
                    }
                    assert forall|c2: Rect|
                        grid_upto(*o, xs@, ys@, i as int, j + 1 as int, c2) implies #[trigger] grid@
                        .contains(c2) by {
                        let (ii, jj) = choose|ii: int, jj: int|
                            0 <= ii < xs@.len() - 1 && 0 <= jj < ys@.len() - 1 && (ii < i || (ii
                                == i && jj < j + 1)) && #[trigger] cell_open(*o, xs@, ys@, ii, jj)
                                && c2 == cell_at(xs@, ys@, ii, jj);
                        if ii == i && jj == j {
                            assert(grid@[grid@.len() - 1] == c2);
                        } else {
                            assert(grid_upto(*o, xs@, ys@, i as int, j as int, c2));
                            assert(pre.contains(c2));
                            let k = choose|k: int| 0 <= k < pre.len() && pre[k] == c2;
                            assert(grid@[k] == c2);
                        }
                    }
                }
            } else {
                proof {
                    assert(!cell_open(*o, xs@, ys@, i as int, j as int));
                    assert forall|c2: Rect|
                        grid_upto(*o, xs@, ys@, i as int, j + 1 as int, c2) implies #[trigger] grid@
                        .contains(c2) by {
                        let (ii, jj) = choose|ii: int, jj: int|
                            0 <= ii < xs@.len() - 1 && 0 <= jj < ys@.len() - 1 && (ii < i || (ii
                                == i && jj < j + 1)) && #[trigger] cell_open(*o, xs@, ys@, ii, jj)
                                && c2 == cell_at(xs@, ys@, ii, jj);
                        assert(!(ii == i && jj == j));
                        assert(grid_upto(*o, xs@, ys@, i as int, j as int, c2));
                    }
                }
            }
            j = j + 1;
        }
        proof {
            assert forall|c2: Rect|
                grid_upto(*o, xs@, ys@, i as int, j as int, c2) implies grid_upto(
                *o,
                xs@,
                ys@,
                i + 1 as int,
                0,
                c2,
            ) by {
                let (ii, jj) = choose|ii: int, jj: int|
                    0 <= ii < xs@.len() - 1 && 0 <= jj < ys@.len() - 1 && (ii < i || (ii == i && jj
                        < j)) && #[trigger] cell_open(*o, xs@, ys@, ii, jj) && c2 == cell_at(
                        xs@,
                        ys@,
                        ii,
                        jj,
                    );
                assert(ii < i + 1);
            }
            assert forall|c2: Rect|
                grid_upto(*o, xs@, ys@, i + 1 as int, 0, c2) implies grid_upto(
                *o,
                xs@,
                ys@,
                i as int,
                j as int,
                c2,
            ) by {
                let (ii, jj) = choose|ii: int, jj: int|
                    0 <= ii < xs@.len() - 1 && 0 <= jj < ys@.len() - 1 && (ii < i + 1) && (
                    #[trigger] cell_open(*o, xs@, ys@, ii, jj)) && c2 == cell_at(xs@, ys@, ii, jj);
                assert(j + 1 >= ys@.len());
                assert(ii < i || (ii == i && jj < j));
            }
        }
        i = i + 1;
    }
    proof {
        assert forall|c: Rect| #[trigger] grid@.contains(c) implies grid_cell_spec(*o, c) by {
            let (ii, jj) = choose|ii: int, jj: int|
                0 <= ii < xs@.len() - 1 && 0 <= jj < ys@.len() - 1 && (ii < i || (ii == i && jj < 0))
                    && #[trigger] cell_open(*o, xs@, ys@, ii, jj) && c == cell_at(xs@, ys@, ii, jj);
            lemma_consecutive_adjacent(xs@, xs_set(*o), ii);
            lemma_consecutive_adjacent(ys@, ys_set(*o), jj);
            assert(is_routable_cell(
                *o,
                xs@[ii] as int,
                ys@[jj] as int,
                xs@[ii + 1] as int,
                ys@[jj + 1] as int,
            ));
        }
        assert forall|c: Rect| grid_cell_spec(*o, c) implies #[trigger] grid@.contains(c) by {
            let (x1, y1, x2, y2) = choose|x1: int, y1: int, x2: int, y2: int|
                #[trigger] is_routable_cell(*o, x1, y1, x2, y2) && c == spec_rect(x1, y1, x2, y2);
            lemma_adjacent_consecutive(xs@, xs_set(*o), x1, x2);
            lemma_adjacent_consecutive(ys@, ys_set(*o), y1, y2);
            let ii = choose|ii: int|
                0 <= ii < xs@.len() - 1 && (#[trigger] xs@[ii]) as int == x1 && xs@[ii + 1] as int
                    == x2;
            let jj = choose|jj: int|
                0 <= jj < ys@.len() - 1 && (#[trigger] ys@[jj]) as int == y1 && ys@[jj + 1] as int
                    == y2;
            assert(cell_open(*o, xs@, ys@, ii, jj));
            assert(c == cell_at(xs@, ys@, ii, jj));
            assert(ii < i);
            assert(grid_upto(*o, xs@, ys@, i as int, 0, c));
        }
    }
    grid
}

/// The resolved location of the first connector point.
pub open spec fn loc_a(o: OrthogonalConnectorOpts) -> Point {
    loc_of(o.point_a)
}

pub open spec fn loc_b(o: OrthogonalConnectorOpts) -> Point {
    loc_of(o.point_b)
}

/// The first connector point's extruded location: its node in the routing
/// graph.
pub open spec fn ext_a(o: OrthogonalConnectorOpts) -> Point {
    ext_of(o.point_a, margin_of(o))
}

pub open spec fn ext_b(o: OrthogonalConnectorOpts) -> Point {
    ext_of(o.point_b, margin_of(o))
}

/// The candidate waypoints of a request: every corner of every routable grid
/// cell, the two resolved connector points, and their extruded locations.
pub open spec fn spot_set(o: OrthogonalConnectorOpts) -> Set<Point> {
    Set::new(
        |p: Point|
            {
                ||| exists|x1: int, y1: int, x2: int, y2: int|
                    #[trigger] is_routable_cell(o, x1, y1, x2, y2) && (p.x as int == x1 || p.x as int
                        == x2) && (p.y as int == y1 || p.y as int == y2)
                ||| p == loc_a(o)
                ||| p == loc_b(o)
                ||| p == ext_a(o)
                ||| p == ext_b(o)
            },
    )
}

/// The point sits on a corner of the rectangle.
pub open spec fn is_corner_of(c: Rect, p: Point) -> bool {
    (p.x as int == rect_left(c) || p.x as int == rect_right(c)) && (p.y as int == rect_top(c)
        || p.y as int == rect_bot(c))
}

pub open spec fn nodup_points(s: Seq<Point>) -> bool {
    forall|i: int, j: int| 0 <= i < j < s.len() ==> s[i] != s[j]
}

pub open spec fn small_pt(p: Point) -> bool {
    -200_000 <= p.x <= 200_000 && -200_000 <= p.y <= 200_000
}

fn vec_has_point(v: &Vec<Point>, p: &Point) -> (res: bool)
    ensures
        res == v@.contains(*p),
{
    let mut k: usize = 0;
    while k < v.len()
        invariant
            0 <= k <= v@.len(),
            forall|t: int| 0 <= t < k ==> v@[t] != *p,
        decreases v@.len() - k,
    {
        if v[k].x == p.x && v[k].y == p.y {
            proof {
                assert(v@[k as int] == *p);
            }
            return true;
        }
        k = k + 1;
    }
    proof {
        assert(!v@.contains(*p)) by {
            if v@.contains(*p) {
                let t = choose|t: int| 0 <= t < v@.len() && v@[t] == *p;
            }
        }
    }
    false
}

/// Appends the point unless an equal one is already there.
fn push_spot(v: &mut Vec<Point>, p: Point)
    requires
        nodup_points(old(v)@),
    ensures
        nodup_points(final(v)@),
        forall|z: Point| final(v)@.contains(z) <==> (old(v)@.contains(z) || z == p),
        final(v)@.len() <= old(v)@.len() + 1,
        forall|k: int|
            0 <= k < final(v)@.len() ==> old(v)@.contains(#[trigger] final(v)@[k]) || final(v)@[k]
                == p,
{
    let ghost pre = v@;
    if !vec_has_point(v, &p) {
        v.push(p);
        proof {
            assert forall|z: Point| final(v)@.contains(z) implies (pre.contains(z) || z == p) by {
                let k = choose|k: int| 0 <= k < v@.len() && v@[k] == z;
                if k < pre.len() {
                    assert(pre[k] == z);
                }
            }
            assert(v@[v@.len() - 1] == p);
            assert forall|z: Point| (pre.contains(z) || z == p) implies final(v)@.contains(z) by {
                if z != p {
                    let k = choose|k: int| 0 <= k < pre.len() && pre[k] == z;
                    assert(v@[k] == z);
                }
            }
            assert forall|a: int, b: int| 0 <= a < b < v@.len() implies v@[a] != v@[b] by {
                if b < pre.len() {
                    assert(pre[a] != pre[b]);
                } else {
                    assert(v@[b] == p);
                    assert(!pre.contains(p));
                    if v@[a] == p {
                        assert(pre[a] == p);
                        assert(pre.contains(p));
                    }
                }
            }
        }
    }
}

/// The deduplicated candidate waypoints: grid-cell corners, then the two
/// connector points and their extruded locations.
fn build_spots(
    o: &OrthogonalConnectorOpts,
    grid: &Vec<Rect>,
    la: Point,
    lb: Point,
    ea: Point,
    eb: Point,
) -> (spots: Vec<Point>)
    requires
        opts_wf(*o),
        cp_valid(o.point_a),
        cp_valid(o.point_b),
        forall|c: Rect| #[trigger] grid@.contains(c) <==> grid_cell_spec(*o, c),
        forall|k: int| 0 <= k < grid@.len() ==> rect_ok(#[trigger] grid@[k]),
        grid@.len() <= 64,
        la == loc_a(*o),
        lb == loc_b(*o),
        ea == ext_a(*o),
        eb == ext_b(*o),
    ensures
        forall|p: Point| #[trigger] spots@.contains(p) <==> spot_set(*o).contains(p),
        nodup_points(spots@),
        spots@.len() <= 260,
        forall|k: int| 0 <= k < spots@.len() ==> small_pt(#[trigger] spots@[k]),
{
    let mut spots: Vec<Point> = Vec::new();
    let mut k: usize = 0;
    while k < grid.len()
        invariant
            opts_wf(*o),
            cp_valid(o.point_a),
            cp_valid(o.point_b),
            forall|c: Rect| #[trigger] grid@.contains(c) <==> grid_cell_spec(*o, c),
            forall|t: int| 0 <= t < grid@.len() ==> rect_ok(#[trigger] grid@[t]),
            grid@.len() <= 64,
            0 <= k <= grid@.len(),
            forall|p: Point| #[trigger] spots@.contains(p) <==> exists|t: int|
                0 <= t < k && #[trigger] is_corner_of(grid@[t], p),
            nodup_points(spots@),
            spots@.len() <= 4 * k,
            forall|t: int| 0 <= t < spots@.len() ==> small_pt(#[trigger] spots@[t]),
        decreases grid@.len() - k,
    {
        let c: Rect = grid[k];
        proof {
            assert(grid@.contains(grid@[k as int]));
            let (x1, y1, x2, y2) = choose|x1: int, y1: int, x2: int, y2: int|
                #[trigger] is_routable_cell(*o, x1, y1, x2, y2) && c == spec_rect(x1, y1, x2, y2);
            lemma_ruler_range(*o, x1);
            lemma_ruler_range(*o, x2);
            lemma_ruler_range(*o, y1);
            lemma_ruler_range(*o, y2);
            assert(rect_left(c) == x1 && rect_right(c) == x2 && rect_top(c) == y1 && rect_bot(c)
                == y2);
        }
        let nw: Point = c.north_west();
        let ne: Point = c.north_east();
        let sw: Point = c.south_west();
        let se: Point = c.south_east();
        let ghost pre = spots@;
        push_spot(&mut spots, nw);
        push_spot(&mut spots, ne);
        push_spot(&mut spots, sw);
        push_spot(&mut spots, se);
        proof {
            assert forall|p: Point| #[trigger] spots@.contains(p) implies exists|t: int|
                0 <= t < k + 1 && #[trigger] is_corner_of(grid@[t], p) by {
                if pre.contains(p) {
                    let t = choose|t: int| 0 <= t < k && #[trigger] is_corner_of(grid@[t], p);
                    assert(0 <= t < k + 1 && is_corner_of(grid@[t], p));
                } else {
                    assert(is_corner_of(grid@[k as int], p));
                }
            }
            assert forall|p: Point|
                (exists|t: int| 0 <= t < k + 1 && #[trigger] is_corner_of(grid@[t], p)) implies
                #[trigger] spots@.contains(p) by {
                let t = choose|t: int| 0 <= t < k + 1 && #[trigger] is_corner_of(grid@[t], p);
                if t < k {
                    assert(pre.contains(p));
                } else {
                    assert(is_corner_of(c, p));
                    assert(p == nw || p == ne || p == sw || p == se);
                }
            }
        }
        k = k + 1;
    }
    push_spot(&mut spots, la);
    push_spot(&mut spots, lb);
    push_spot(&mut spots, ea);
    push_spot(&mut spots, eb);
    proof {
        assert(small_pt(la) && small_pt(lb) && small_pt(ea) && small_pt(eb));
        assert forall|p: Point| #[trigger] spots@.contains(p) implies spot_set(*o).contains(p) by {
            if p != la && p != lb && p != ea && p != eb {
                let t = choose|t: int| 0 <= t < grid@.len() && #[trigger] is_corner_of(grid@[t], p);
                let c = grid@[t];
                assert(grid@.contains(c));
                let (x1, y1, x2, y2) = choose|x1: int, y1: int, x2: int, y2: int|
                    #[trigger] is_routable_cell(*o, x1, y1, x2, y2) && c == spec_rect(
                        x1,
                        y1,
                        x2,
                        y2,
                    );
                lemma_ruler_range(*o, x1);
                lemma_ruler_range(*o, x2);
                lemma_ruler_range(*o, y1);
                lemma_ruler_range(*o, y2);
                assert((p.x as int == x1 || p.x as int == x2) && (p.y as int == y1 || p.y as int
                    == y2));
            }
        }
        assert forall|p: Point| spot_set(*o).contains(p) implies #[trigger] spots@.contains(p) by {
            if p == la || p == lb || p == ea || p == eb {
            } else {
                let (x1, y1, x2, y2) = choose|x1: int, y1: int, x2: int, y2: int|
                    #[trigger] is_routable_cell(*o, x1, y1, x2, y2) && (p.x as int == x1 || p.x
                        as int == x2) && (p.y as int == y1 || p.y as int == y2);
                lemma_ruler_range(*o, x1);
                lemma_ruler_range(*o, x2);
                lemma_ruler_range(*o, y1);
                lemma_ruler_range(*o, y2);
                let c = spec_rect(x1, y1, x2, y2);
                assert(grid_cell_spec(*o, c));
                assert(grid@.contains(c));
                let t = choose|t: int| 0 <= t < grid@.len() && grid@[t] == c;
                assert(rect_left(c) == x1 && rect_right(c) == x2 && rect_top(c) == y1 && rect_bot(
                    c,
                ) == y2);
                assert(is_corner_of(grid@[t], p));
            }
        }
    }
    spots
}

/// The margined bounds of the first shape.
pub open spec fn margined_a(o: OrthogonalConnectorOpts) -> Rect {
    spec_rect(
        rect_left(shape_a(o)) - margin_of(o),
        rect_top(shape_a(o)) - margin_of(o),
        rect_right(shape_a(o)) + margin_of(o),
        rect_bot(shape_a(o)) + margin_of(o),
    )
}

/// The margined bounds of the second shape.
pub open spec fn margined_b(o: OrthogonalConnectorOpts) -> Rect {
    spec_rect(
        rect_left(shape_b(o)) - margin_of(o),
        rect_top(shape_b(o)) - margin_of(o),
        rect_right(shape_b(o)) + margin_of(o),
        rect_bot(shape_b(o)) + margin_of(o),
    )
}

/// Two waypoints may be joined by a graph edge: distinct, axis-aligned, and
/// the straight segment between them cuts neither shape's margined bounds.
pub open spec fn eligible(o: OrthogonalConnectorOpts, p: Point, q: Point) -> bool {
    &&& p != q
    &&& aligned(p, q)
    &&& !seg_cuts(p, q, margined_a(o))
    &&& !seg_cuts(p, q, margined_b(o))
}

/// The full edge set of the routing graph: every ordered pair of eligible
/// waypoints.
pub open spec fn links_of(o: OrthogonalConnectorOpts) -> Set<(Point, Point)> {
    Set::new(
        |pq: (Point, Point)|
            spot_set(o).contains(pq.0) && spot_set(o).contains(pq.1) && eligible(o, pq.0, pq.1),
    )
}

/// Length of the axis-aligned segment between two points (the sum of the
/// coordinate gaps; on aligned pairs this is the Euclidean distance).
pub open spec fn axis_len(p: Point, q: Point) -> int {
    (if p.x >= q.x {
        p.x - q.x
    } else {
        q.x - p.x
    }) + (if p.y >= q.y {
        p.y - q.y
    } else {
        q.y - p.y
    })
}

/// The cost of each edge of the routing graph: the axis distance between its
/// endpoints.
pub open spec fn links_cost(o: OrthogonalConnectorOpts) -> Map<(Point, Point), u64> {
    Map::new(
        |pq: (Point, Point)| links_of(o).contains(pq),
        |pq: (Point, Point)| axis_len(pq.0, pq.1) as u64,
    )
}

/// The edges over waypoint pairs that come lexicographically before position
/// `(i, j)` of the double sweep.
pub open spec fn edges_upto(
    o: OrthogonalConnectorOpts,
    s: Seq<Point>,
    i: int,
    j: int,
) -> Set<(Point, Point)> {
    Set::new(
        |pq: (Point, Point)|
            exists|ii: int, jj: int|
                #![trigger s[ii], s[jj]]
                0 <= ii < s.len() && 0 <= jj < s.len() && (ii < i || (ii == i && jj < j)) && pq.0
                    == s[ii] && pq.1 == s[jj] && eligible(o, s[ii], s[jj]),
    )
}

/// Builds the routing graph: one node per waypoint, one directed edge for each
/// eligible ordered pair, weighted by the straight-line distance between the
/// endpoints (the axis distance, as eligible pairs are axis-aligned).
fn build_graph(
    o: &OrthogonalConnectorOpts,
    spots: &Vec<Point>,
    ma: &Rect,
    mb: &Rect,
) -> (g: crate::graph::PointGraph)
    requires
        opts_wf(*o),
        cp_valid(o.point_a),
        cp_valid(o.point_b),
        nodup_points(spots@),
        forall|p: Point| #[trigger] spots@.contains(p) <==> spot_set(*o).contains(p),
        forall|k: int| 0 <= k < spots@.len() ==> small_pt(#[trigger] spots@[k]),
        spots@.len() <= 260,
        *ma == margined_a(*o),
        *mb == margined_b(*o),
        rect_ok(*ma),
        rect_ok(*mb),
    ensures
        crate::graph::graph_points(g) == spot_set(*o),
        crate::graph::graph_links(g) == links_of(*o),
        crate::graph::graph_costs(g) == links_cost(*o),
{
    let mut g = crate::graph::PointGraph::new();
    let mut i: usize = 0;
    while i < spots.len()
        invariant
            nodup_points(spots@),
            forall|k: int| 0 <= k < spots@.len() ==> small_pt(#[trigger] spots@[k]),
            spots@.len() <= 260,
            0 <= i <= spots@.len(),
            crate::graph::graph_links(g) == Set::<(Point, Point)>::empty(),
            crate::graph::costs_empty(crate::graph::graph_costs(g)),
            crate::graph::graph_points(g).finite(),
            crate::graph::graph_points(g).len() <= i,
            forall|p: Point| #[trigger] crate::graph::graph_points(g).contains(p) <==> exists|k: int|
                0 <= k < i && #[trigger] spots@[k] == p,
        decreases spots@.len() - i,
    {
        let ghost prepts = crate::graph::graph_points(g);
        g.add(spots[i]);
        proof {
            assert forall|p: Point| #[trigger] crate::graph::graph_points(g).contains(p) implies
                exists|k: int| 0 <= k < i + 1 && #[trigger] spots@[k] == p by {
                if prepts.contains(p) {
                    let k = choose|k: int| 0 <= k < i && #[trigger] spots@[k] == p;
                    assert(0 <= k < i + 1 && spots@[k] == p);
                } else {
                    assert(spots@[i as int] == p);
                }
            }
        }
        i = i + 1;
    }
    proof {
        assert forall|p: Point| #[trigger] crate::graph::graph_points(g).contains(p) implies
            spot_set(*o).contains(p) by {
            let k = choose|k: int| 0 <= k < spots@.len() && #[trigger] spots@[k] == p;
            assert(spots@.contains(p));
        }
        assert forall|p: Point| spot_set(*o).contains(p) implies #[trigger] crate::graph::graph_points(
            g,
        ).contains(p) by {
            assert(spots@.contains(p));
            let k = choose|k: int| 0 <= k < spots@.len() && spots@[k] == p;
        }
        assert(crate::graph::graph_points(g) =~= spot_set(*o));
    }
    let ghost pts = crate::graph::graph_points(g);
    let mut i: usize = 0;
    while i < spots.len()
        invariant
            opts_wf(*o),
            cp_valid(o.point_a),
            cp_valid(o.point_b),
            nodup_points(spots@),
            forall|p: Point| #[trigger] spots@.contains(p) <==> spot_set(*o).contains(p),
            forall|k: int| 0 <= k < spots@.len() ==> small_pt(#[trigger] spots@[k]),
            spots@.len() <= 260,
            *ma == margined_a(*o),
            *mb == margined_b(*o),
            rect_ok(*ma),
            rect_ok(*mb),
            0 <= i <= spots@.len(),
            crate::graph::graph_points(g) == spot_set(*o),
            crate::graph::graph_points(g).finite(),
            crate::graph::graph_points(g).len() <= 260,
            crate::graph::graph_links(g) == edges_upto(*o, spots@, i as int, 0),
            crate::graph::graph_links(g).finite(),
            crate::graph::graph_links(g).len() <= 260 * i,
            crate::graph::graph_costs(g).dom() =~= crate::graph::graph_links(g),
            forall|pq: (Point, Point)|
                crate::graph::graph_links(g).contains(pq) ==> crate::graph::graph_costs(g)[pq]
                    == axis_len(pq.0, pq.1) as u64,
        decreases spots@.len() - i,
    {
        let mut j: usize = 0;
        while j < spots.len()
            invariant
                opts_wf(*o),
                cp_valid(o.point_a),
                cp_valid(o.point_b),
                nodup_points(spots@),
                forall|p: Point| #[trigger] spots@.contains(p) <==> spot_set(*o).contains(p),
                forall|k: int| 0 <= k < spots@.len() ==> small_pt(#[trigger] spots@[k]),
                spots@.len() <= 260,
                *ma == margined_a(*o),
                *mb == margined_b(*o),
                rect_ok(*ma),
                rect_ok(*mb),
                0 <= i < spots@.len(),
                0 <= j <= spots@.len(),
                crate::graph::graph_points(g) == spot_set(*o),
                crate::graph::graph_points(g).finite(),
                crate::graph::graph_points(g).len() <= 260,
                crate::graph::graph_links(g) == edges_upto(*o, spots@, i as int, j as int),
                crate::graph::graph_links(g).finite(),
                crate::graph::graph_links(g).len() <= 260 * i + j,
                crate::graph::graph_costs(g).dom() =~= crate::graph::graph_links(g),
                forall|pq: (Point, Point)|
                    crate::graph::graph_links(g).contains(pq) ==> crate::graph::graph_costs(g)[pq]
                        == axis_len(pq.0, pq.1) as u64,
            decreases spots@.len() - j,
        {
            let p: Point = spots[i];
            let q: Point = spots[j];
            let ghost pre = crate::graph::graph_links(g);
            let distinct: bool = p.x != q.x || p.y != q.y;
            let is_aligned: bool = p.x == q.x || p.y == q.y;
            if distinct && is_aligned && !crate::geometry::segment_cuts_rect(&p, &q, ma)
                && !crate::geometry::segment_cuts_rect(&p, &q, mb) {
                proof {
                    assert(eligible(*o, p, q));
                    assert(spots@.contains(p) && spots@.contains(q));
                    assert(!pre.contains((p, q))) by {
                        if pre.contains((p, q)) {
                            let (ii, jj) = choose|ii: int, jj: int|
                                #![trigger spots@[ii], spots@[jj]]
                                0 <= ii < spots@.len() && 0 <= jj < spots@.len() && (ii < i || (ii
                                    == i && jj < j)) && p == spots@[ii] && q == spots@[jj]
                                    && eligible(*o, spots@[ii], spots@[jj]);
                            assert(ii == i && jj == j);
                        }
                    }
                    assert(pre.len() <= 260 * i + j);
                }
                let dx: i32 = if p.x >= q.x {
                    p.x - q.x
                } else {
                    q.x - p.x
                };
                let dy: i32 = if p.y >= q.y {
                    p.y - q.y
                } else {
                    q.y - p.y
                };
                let w: u64 = (dx as u64) + (dy as u64);
                proof {
                    assert(w == axis_len(p, q) as u64);
                }
                g.connect(p, q, w);
                proof {
                    assert forall|pq: (Point, Point)|
                        #[trigger] crate::graph::graph_links(g).contains(pq) implies edges_upto(
                        *o,
                        spots@,
                        i as int,
                        j + 1 as int,
                    ).contains(pq) by {
                        if pre.contains(pq) {
                            assert(edges_upto(*o, spots@, i as int, j as int).contains(pq));
                            let (ii, jj) = choose|ii: int, jj: int|
                                #![trigger spots@[ii], spots@[jj]]
                                0 <= ii < spots@.len() && 0 <= jj < spots@.len() && (ii < i || (ii
                                    == i && jj < j)) && pq.0 == spots@[ii] && pq.1 == spots@[jj]
                                    && eligible(*o, spots@[ii], spots@[jj]);
                            assert(ii < i || (ii == i && jj < j + 1));
                        } else {
                            assert(pq == (p, q));
                            assert(pq.0 == spots@[i as int] && pq.1 == spots@[j as int]);
                        }
                    }
                    assert forall|pq: (Point, Point)|
                        edges_upto(*o, spots@, i as int, j + 1 as int).contains(pq) implies
                        #[trigger] crate::graph::graph_links(g).contains(pq) by {
                        let (ii, jj) = choose|ii: int, jj: int|
                            #![trigger spots@[ii], spots@[jj]]
                            0 <= ii < spots@.len() && 0 <= jj < spots@.len() && (ii < i || (ii == i
                                && jj < j + 1)) && pq.0 == spots@[ii] && pq.1 == spots@[jj]
                                && eligible(*o, spots@[ii], spots@[jj]);
                        if ii == i && jj == j {
                            assert(pq == (p, q));
                        } else {
                            assert(edges_upto(*o, spots@, i as int, j as int).contains(pq));
                        }
                    }
                    assert(crate::graph::graph_links(g) =~= edges_upto(
                        *o,
                        spots@,
                        i as int,
                        j + 1 as int,
                    ));
                }
            } else {
                proof {
                    assert(!eligible(*o, p, q));
                    assert forall|pq: (Point, Point)|
                        edges_upto(*o, spots@, i as int, j + 1 as int).contains(pq) implies
                        #[trigger] crate::graph::graph_links(g).contains(pq) by {
                        let (ii, jj) = choose|ii: int, jj: int|
                            #![trigger spots@[ii], spots@[jj]]
                            0 <= ii < spots@.len() && 0 <= jj < spots@.len() && (ii < i || (ii == i
                                && jj < j + 1)) && pq.0 == spots@[ii] && pq.1 == spots@[jj]
                                && eligible(*o, spots@[ii], spots@[jj]);
                        assert(!(ii == i && jj == j));
                        assert(edges_upto(*o, spots@, i as int, j as int).contains(pq));
                    }
                    assert forall|pq: (Point, Point)|
                        #[trigger] crate::graph::graph_links(g).contains(pq) implies edges_upto(
                        *o,
                        spots@,
                        i as int,
                        j + 1 as int,
                    ).contains(pq) by {
                        let (ii, jj) = choose|ii: int, jj: int|
                            #![trigger spots@[ii], spots@[jj]]
                            0 <= ii < spots@.len() && 0 <= jj < spots@.len() && (ii < i || (ii == i
                                && jj < j)) && pq.0 == spots@[ii] && pq.1 == spots@[jj] && eligible(
                                *o,
                                spots@[ii],
                                spots@[jj],
                            );
                        assert(ii < i || (ii == i && jj < j + 1));
                    }
                    assert(crate::graph::graph_links(g) =~= edges_upto(
                        *o,
                        spots@,
                        i as int,
                        j + 1 as int,
                    ));
                }
            }
            j = j + 1;
        }
        proof {
            assert forall|pq: (Point, Point)|
                edges_upto(*o, spots@, i + 1 as int, 0).contains(pq) implies #[trigger] crate::graph::graph_links(
                g,
            ).contains(pq) by {
                let (ii, jj) = choose|ii: int, jj: int|
                    #![trigger spots@[ii], spots@[jj]]
                    0 <= ii < spots@.len() && 0 <= jj < spots@.len() && (ii < i + 1) && pq.0
                        == spots@[ii] && pq.1 == spots@[jj] && eligible(*o, spots@[ii], spots@[jj]);
                assert(ii < i || (ii == i && jj < j));
                assert(edges_upto(*o, spots@, i as int, j as int).contains(pq));
            }
            assert forall|pq: (Point, Point)|
                #[trigger] crate::graph::graph_links(g).contains(pq) implies edges_upto(
                *o,
                spots@,
                i + 1 as int,
                0,
            ).contains(pq) by {
                let (ii, jj) = choose|ii: int, jj: int|
                    #![trigger spots@[ii], spots@[jj]]
                    0 <= ii < spots@.len() && 0 <= jj < spots@.len() && (ii < i || (ii == i && jj
                        < j)) && pq.0 == spots@[ii] && pq.1 == spots@[jj] && eligible(
                        *o,
                        spots@[ii],
                        spots@[jj],
                    );
                assert(ii < i + 1);
            }
            assert(crate::graph::graph_links(g) =~= edges_upto(*o, spots@, i + 1 as int, 0));
        }
        i = i + 1;
    }
    proof {
        assert forall|pq: (Point, Point)| #[trigger] crate::graph::graph_links(g).contains(
            pq,
        ) implies links_of(*o).contains(pq) by {
            let (ii, jj) = choose|ii: int, jj: int|
                #![trigger spots@[ii], spots@[jj]]
                0 <= ii < spots@.len() && 0 <= jj < spots@.len() && (ii < i || (ii == i && jj < 0))
                    && pq.0 == spots@[ii] && pq.1 == spots@[jj] && eligible(*o, spots@[ii], spots@[jj]);
            assert(spots@.contains(pq.0) && spots@.contains(pq.1));
        }
        assert forall|pq: (Point, Point)| links_of(*o).contains(pq) implies #[trigger] crate::graph::graph_links(
            g,
        ).contains(pq) by {
            assert(spots@.contains(pq.0) && spots@.contains(pq.1));
            let ii = choose|ii: int| 0 <= ii < spots@.len() && spots@[ii] == pq.0;
            let jj = choose|jj: int| 0 <= jj < spots@.len() && spots@[jj] == pq.1;
            assert(ii < i);
            assert(edges_upto(*o, spots@, i as int, 0).contains(pq));
        }
        assert(crate::graph::graph_links(g) =~= links_of(*o));
        assert(crate::graph::graph_costs(g) =~= links_cost(*o)) by {
            assert(crate::graph::graph_costs(g).dom() =~= links_cost(*o).dom());
            assert forall|pq: (Point, Point)|
                crate::graph::graph_costs(g).dom().contains(pq) implies crate::graph::graph_costs(
                g,
            )[pq] == links_cost(*o)[pq] by {
                assert(crate::graph::graph_links(g).contains(pq));
            }
        }
    }
    g
}

/// Total axis length of a point chain, segment by segment.
pub open spec fn chain_len(s: Seq<Point>) -> int
    decreases s.len(),
{
    if s.len() <= 1 {
        0
    } else {
        axis_len(s[0], s[1]) + chain_len(s.skip(1))
    }
}

/// Appending a point adds exactly the closing segment's length.
pub proof fn lemma_chain_len_push(s: Seq<Point>, b: Point)
    requires
        s.len() >= 1,
    ensures
        chain_len(s.push(b)) == chain_len(s) + axis_len(s[s.len() - 1], b),
    decreases s.len(),
{
    let t = s.push(b);
    assert(t.len() == s.len() + 1);
    assert(t[0] == s[0]);
    assert(chain_len(t) == axis_len(t[0], t[1]) + chain_len(t.skip(1)));
    if s.len() == 1 {
        assert(t[1] == b);
        assert(t.skip(1) =~= seq![b]);
        assert(chain_len(seq![b]) == 0);
        assert(chain_len(s) == 0);
    } else {
        assert(t[1] == s[1]);
        assert(t.skip(1) =~= s.skip(1).push(b));
        lemma_chain_len_push(s.skip(1), b);
        assert(s.skip(1)[s.skip(1).len() - 1] == s[s.len() - 1]);
        assert(chain_len(s) == axis_len(s[0], s[1]) + chain_len(s.skip(1)));
    }
}

/// A walk's summed edge cost is its axis length, when every step is an edge of
/// the routing graph.
pub proof fn lemma_walk_cost_is_chain_len(o: OrthogonalConnectorOpts, q: Seq<Point>)
    requires
        forall|i: int| 0 <= i < q.len() - 1 ==> links_of(o).contains((#[trigger] q[i], q[i + 1])),
    ensures
        crate::graph::walk_cost(links_cost(o), q) == chain_len(q),
    decreases q.len(),
{
    if q.len() > 1 {
        assert(links_of(o).contains((q[0], q[1])));
        assert(links_cost(o)[(q[0], q[1])] == axis_len(q[0], q[1]) as u64);
        assert(axis_len(q[0], q[1]) >= 0);
        assert forall|i: int| 0 <= i < q.skip(1).len() - 1 implies links_of(o).contains(
            (#[trigger] q.skip(1)[i], q.skip(1)[i + 1]),
        ) by {
            assert(q.skip(1)[i] == q[i + 1] && q.skip(1)[i + 1] == q[i + 2]);
        }
        lemma_walk_cost_is_chain_len(o, q.skip(1));
    }
}

/// The raw chain's length decomposes into the two escape stubs plus the walk.
pub proof fn lemma_chain_len_raw(a: Point, q: Seq<Point>, b: Point, raw: Seq<Point>)
    requires
        q.len() >= 1,
        raw =~= seq![a] + q + seq![b],
    ensures
        chain_len(raw) == axis_len(a, q[0]) + chain_len(q) + axis_len(q[q.len() - 1], b),
    decreases q.len(),
{
    assert(raw.len() == q.len() + 2);
    assert(raw[0] == a && raw[1] == q[0]);
    assert(chain_len(raw) == axis_len(raw[0], raw[1]) + chain_len(raw.skip(1)));
    if q.len() == 1 {
        assert(raw.skip(1) =~= seq![q[0], b]);
        assert(chain_len(seq![q[0], b]) == axis_len(q[0], b) + chain_len(seq![q[0], b].skip(1)));
        assert(seq![q[0], b].skip(1) =~= seq![b]);
        assert(chain_len(seq![b]) == 0);
        assert(chain_len(q) == 0);
    } else {
        assert(raw.skip(1) =~= seq![q[0]] + q.skip(1) + seq![b]);
        lemma_chain_len_raw(q[0], q.skip(1), b, raw.skip(1));
        assert(q.skip(1)[0] == q[1]);
        assert(q.skip(1)[q.skip(1).len() - 1] == q[q.len() - 1]);
        assert(chain_len(q) == axis_len(q[0], q[1]) + chain_len(q.skip(1)));
    }
}

/// The escape stub is exactly one margin long.
pub proof fn lemma_stub_len(cp: ConnectorPoint, m: int)
    requires
        rect_ok(cp.shape),
        cp_valid(cp),
        0 <= m <= 500_000,
    ensures
        axis_len(loc_of(cp), ext_of(cp, m)) == m,
{
}

/// Total axis length of a segment list.
pub open spec fn conn_len(lines: Seq<Line>) -> int
    decreases lines.len(),
{
    if lines.len() == 0 {
        0
    } else {
        axis_len(lines[0].a, lines[0].b) + conn_len(lines.skip(1))
    }
}

/// The segments read off a chain sum to the chain's length.
pub proof fn lemma_conn_len_is_chain_len(out: Seq<Point>, lines: Seq<Line>)
    requires
        out.len() >= 1,
        lines.len() == out.len() - 1,
        forall|s: int|
            0 <= s < lines.len() ==> (#[trigger] lines[s]).a == out[s] && lines[s].b == out[s + 1],
    ensures
        conn_len(lines) == chain_len(out),
    decreases out.len(),
{
    if lines.len() > 0 {
        assert forall|s: int|
            0 <= s < lines.skip(1).len() implies (#[trigger] lines.skip(1)[s]).a == out.skip(1)[s]
            && lines.skip(1)[s].b == out.skip(1)[s + 1] by {
            assert(lines.skip(1)[s] == lines[s + 1]);
            assert(out.skip(1)[s] == out[s + 1] && out.skip(1)[s + 1] == out[s + 2]);
        }
        lemma_conn_len_is_chain_len(out.skip(1), lines.skip(1));
        assert(axis_len(lines[0].a, lines[0].b) == axis_len(out[0], out[1]));
    }
}

/// Consecutive points are either equal or axis-aligned.
pub open spec fn loose_chain(s: Seq<Point>) -> bool {
    forall|i: int|
        0 <= i < s.len() - 1 ==> (s[i + 1] == s[i] || aligned(#[trigger] s[i], s[i + 1]))
}

/// Consecutive points are distinct and axis-aligned.
pub open spec fn strict_chain(s: Seq<Point>) -> bool {
    forall|i: int| 0 <= i < s.len() - 1 ==> (s[i + 1] != s[i] && aligned(#[trigger] s[i], s[i + 1]))
}

/// No three consecutive points lie on one line: every interior point is a bend.
pub open spec fn min_bends(s: Seq<Point>) -> bool {
    forall|i: int| 0 <= i < s.len() - 2 ==> !collinear(#[trigger] s[i], s[i + 1], s[i + 2])
}

/// No segment of the chain meets the interior of `r` (equal consecutive points
/// span no segment).
pub open spec fn no_cut_chain(s: Seq<Point>, r: Rect) -> bool {
    forall|i: int|
        0 <= i < s.len() - 1 ==> (s[i + 1] == s[i] || !seg_cuts(#[trigger] s[i], s[i + 1], r))
}

/// The last point of the chain is a droppable middle point: collinear between
/// its predecessor and the incoming point.
fn should_drop(out: &Vec<Point>, p: &Point) -> (res: bool)
    ensures
        res == (out@.len() >= 2 && out@[out@.len() - 1] != *p && collinear(
            out@[out@.len() - 2],
            out@[out@.len() - 1],
            *p,
        )),
{
    if out.len() < 2 {
        return false;
    }
    let a: Point = out[out.len() - 2];
    let b: Point = out[out.len() - 1];
    if b == *p {
        return false;
    }
    (a.x == b.x && b.x == p.x) || (a.y == b.y && b.y == p.y)
}

/// Collapses consecutive collinear points of an axis-aligned chain. The result
/// keeps the endpoints, walks distinct axis-aligned steps, bends at every
/// interior point, grows no longer than the incoming chain, and cuts no
/// rectangle that chain left uncut.
pub fn simplify_polyline(pts: &Vec<Point>) -> (out: Vec<Point>)
    requires
        pts@.len() >= 1,
        loose_chain(pts@),
    ensures
        out@.len() >= 1,
        out@[0] == pts@[0],
        out@[out@.len() - 1] == pts@[pts@.len() - 1],
        strict_chain(out@),
        min_bends(out@),
        forall|i: int| 0 <= i < out@.len() ==> pts@.contains(#[trigger] out@[i]),
        forall|r: Rect| #[trigger] no_cut_chain(pts@, r) ==> no_cut_chain(out@, r),
        chain_len(out@) <= chain_len(pts@),
{
    let mut out: Vec<Point> = Vec::new();
    out.push(pts[0]);
    let mut k: usize = 1;
    while k < pts.len()
        invariant
            loose_chain(pts@),
            1 <= k <= pts@.len(),
            out@.len() >= 1,
            out@[0] == pts@[0],
            out@[out@.len() - 1] == pts@[k - 1],
            strict_chain(out@),
            min_bends(out@),
            forall|i: int| 0 <= i < out@.len() ==> pts@.contains(#[trigger] out@[i]),
            forall|r: Rect| #[trigger] no_cut_chain(pts@, r) ==> no_cut_chain(out@, r),
            chain_len(out@) <= chain_len(pts@.take(k as int)),
        decreases pts@.len() - k,
    {
        let p: Point = pts[k];
        proof {
            assert(pts@.take(k + 1 as int) =~= pts@.take(k as int).push(pts@[k as int]));
            lemma_chain_len_push(pts@.take(k as int), pts@[k as int]);
            assert(pts@.take(k as int)[k - 1] == pts@[k - 1]);
            assert(chain_len(pts@.take(k + 1 as int)) == chain_len(pts@.take(k as int)) + axis_len(
                pts@[k - 1],
                p,
            ));
            assert(pts@[k - 1] == p || aligned(pts@[k - 1], p));
            assert forall|r: Rect| #[trigger] no_cut_chain(pts@, r) implies (out@[out@.len() - 1]
                == p || !seg_cuts(out@[out@.len() - 1], p, r)) by {
                assert(pts@[k as int] == pts@[k - 1] || !seg_cuts(pts@[k - 1], pts@[k as int], r));
            }
        }
        while should_drop(&out, &p)
            invariant
                out@.len() >= 1,
                out@[0] == pts@[0],
                strict_chain(out@),
                min_bends(out@),
                forall|i: int| 0 <= i < out@.len() ==> pts@.contains(#[trigger] out@[i]),
                chain_len(out@) + axis_len(out@[out@.len() - 1], p) <= chain_len(
                    pts@.take(k + 1 as int),
                ),
                out@[out@.len() - 1] == p || aligned(out@[out@.len() - 1], p),
                forall|r: Rect| #[trigger] no_cut_chain(pts@, r) ==> no_cut_chain(out@, r),
                forall|r: Rect| #[trigger] no_cut_chain(pts@, r) ==> (out@[out@.len() - 1] == p
                    || !seg_cuts(out@[out@.len() - 1], p, r)),
            decreases out@.len(),
        {
            let ghost pre = out@;
            let ghost b = out@[out@.len() - 1];
            let ghost a = out@[out@.len() - 2];
            out.pop();
            proof {
                assert(out@ =~= pre.take(pre.len() - 1));
                lemma_chain_len_push(out@, b);
                assert(out@.push(b) =~= pre);
                assert(chain_len(pre) == chain_len(out@) + axis_len(out@[out@.len() - 1], b));
                assert forall|i: int| 0 <= i < out@.len() implies pts@.contains(
                    #[trigger] out@[i],
                ) by {
                    assert(out@[i] == pre[i]);
                }
                assert(out@[out@.len() - 1] == a);
                assert(collinear(a, b, p));
                assert(aligned(a, p));
                assert forall|r: Rect| #[trigger] no_cut_chain(pts@, r) implies (out@[out@.len()
                    - 1] == p || !seg_cuts(out@[out@.len() - 1], p, r)) by {
                    if a != p {
                        assert(!seg_cuts(a, b, r));
                        assert(b == p || !seg_cuts(b, p, r));
                        if b != p {
                            crate::geometry::lemma_cut_merge(a, b, p, r);
                        } else {
                            assert(!seg_cuts(a, p, r));
                        }
                    }
                }
                assert forall|r: Rect| #[trigger] no_cut_chain(pts@, r) implies no_cut_chain(
                    out@,
                    r,
                ) by {
                    assert forall|i: int| 0 <= i < out@.len() - 1 implies (out@[i + 1] == out@[i]
                        || !seg_cuts(#[trigger] out@[i], out@[i + 1], r)) by {
                        assert(pre[i] == out@[i] && pre[i + 1] == out@[i + 1]);
                    }
                }
            }
        }
        let ghost pre = out@;
        if !(out[out.len() - 1] == p) {
            out.push(p);
            proof {
                assert(out@ =~= pre.push(p));
                lemma_chain_len_push(pre, p);
                assert(chain_len(out@) == chain_len(pre) + axis_len(pre[pre.len() - 1], p));
                assert(out@[out@.len() - 1] == p);
                assert(pts@.contains(p)) by {
                    assert(pts@[k as int] == p);
                }
                assert forall|i: int| 0 <= i < out@.len() implies pts@.contains(
                    #[trigger] out@[i],
                ) by {
                    if i < pre.len() {
                        assert(out@[i] == pre[i]);
                    }
                }
                assert(aligned(pre[pre.len() - 1], p));
                assert forall|i: int| 0 <= i < out@.len() - 1 implies (out@[i + 1] != out@[i]
                    && aligned(#[trigger] out@[i], out@[i + 1])) by {
                    if i < pre.len() - 1 {
                        assert(pre[i] == out@[i] && pre[i + 1] == out@[i + 1]);
                    }
                }
                assert forall|i: int| 0 <= i < out@.len() - 2 implies !collinear(
                    #[trigger] out@[i],
                    out@[i + 1],
                    out@[i + 2],
                ) by {
                    if i < pre.len() - 2 {
                        assert(pre[i] == out@[i] && pre[i + 1] == out@[i + 1] && pre[i + 2]
                            == out@[i + 2]);
                    } else {
                        assert(out@[i] == pre[pre.len() - 2] && out@[i + 1] == pre[pre.len() - 1]
                            && out@[i + 2] == p);
                    }
                }
                assert forall|r: Rect| #[trigger] no_cut_chain(pts@, r) implies no_cut_chain(
                    out@,
                    r,
                ) by {
                    assert forall|i: int| 0 <= i < out@.len() - 1 implies (out@[i + 1] == out@[i]
                        || !seg_cuts(#[trigger] out@[i], out@[i + 1], r)) by {
                        if i < pre.len() - 1 {
                            assert(pre[i] == out@[i] && pre[i + 1] == out@[i + 1]);
                        } else {
                            assert(out@[i] == pre[pre.len() - 1] && out@[i + 1] == p);
                        }
                    }
                }
            }
        }
        k = k + 1;
    }
    proof {
        assert(pts@.take(pts@.len() as int) =~= pts@);
    }
    out
}

/// A walk along the request's eligible edges joins the two extruded connector
/// points: the request can be routed.
pub open spec fn routable(o: OrthogonalConnectorOpts) -> bool {
    exists|q: Seq<Point>| crate::graph::is_path(links_of(o), q, ext_a(o), ext_b(o))
}

pub open spec fn is_invalid_err(
    r: Result<OrthogonalConnectorByproduct, RoutingError>,
) -> bool {
    match r {
        Result::Err(e) => e == RoutingError::InvalidConfiguration,
        Result::Ok(_) => false,
    }
}

pub open spec fn is_unroutable_err(
    r: Result<OrthogonalConnectorByproduct, RoutingError>,
) -> bool {
    match r {
        Result::Err(e) => e == RoutingError::Unroutable,
        Result::Ok(_) => false,
    }
}

/// Neither shape reaches into the other's margined bounds.
pub open spec fn shapes_separated(o: OrthogonalConnectorOpts) -> bool {
    &&& !margined_box_meets(shape_a(o), margin_of(o), shape_b(o))
    &&& !margined_box_meets(shape_b(o), margin_of(o), shape_a(o))
}


/// A rectangle is determined by its four edges.
pub proof fn lemma_rect_eq(r: Rect, l: int, t: int, rr: int, bb: int)
    requires
        rect_left(r) == l,
        rect_top(r) == t,
        rect_right(r) == rr,
        rect_bot(r) == bb,
    ensures
        r == spec_rect(l, t, rr, bb),
{
    assert(r.origin.x == l as i32);
    assert(r.origin.y == t as i32);
    assert(r.size.width == (rr - l) as i32);
    assert(r.size.height == (bb - t) as i32);
}

/// Under the input budget the margined bounds' edges are the shapes' edges
/// shifted by the margin, and both margined rectangles are well formed.
pub proof fn lemma_margined_edges(o: OrthogonalConnectorOpts)
    requires
        opts_wf(o),
    ensures
        rect_left(margined_a(o)) == rect_left(shape_a(o)) - margin_of(o),
        rect_right(margined_a(o)) == rect_right(shape_a(o)) + margin_of(o),
        rect_top(margined_a(o)) == rect_top(shape_a(o)) - margin_of(o),
        rect_bot(margined_a(o)) == rect_bot(shape_a(o)) + margin_of(o),
        rect_left(margined_b(o)) == rect_left(shape_b(o)) - margin_of(o),
        rect_right(margined_b(o)) == rect_right(shape_b(o)) + margin_of(o),
        rect_top(margined_b(o)) == rect_top(shape_b(o)) - margin_of(o),
        rect_bot(margined_b(o)) == rect_bot(shape_b(o)) + margin_of(o),
        rect_ok(margined_a(o)),
        rect_ok(margined_b(o)),
{
}

/// Whether a segment cuts a rectangle does not depend on the segment's
/// direction.
pub proof fn lemma_cut_sym(a: Point, b: Point, r: Rect)
    ensures
        seg_cuts(a, b, r) == seg_cuts(b, a, r),
{
}

/// The raw point chain around a graph walk: the resolved start, the walk from
/// extruded start to extruded goal, then the resolved end. Every step is
/// axis-aligned (or stationary), and when the shapes clear each other's
/// margined bounds no step cuts either shape.
#[verifier::rlimit(100)]
pub proof fn lemma_raw_chain(o: OrthogonalConnectorOpts, path: Seq<Point>, raw: Seq<Point>)
    requires
        opts_wf(o),
        cp_valid(o.point_a),
        cp_valid(o.point_b),
        crate::graph::is_path(links_of(o), path, ext_a(o), ext_b(o)),
        raw =~= seq![loc_a(o)] + path + seq![loc_b(o)],
    ensures
        loose_chain(raw),
        raw.len() >= 3,
        raw[0] == loc_a(o),
        raw[raw.len() - 1] == loc_b(o),
        forall|i: int| 0 <= i < raw.len() ==> spot_set(o).contains(#[trigger] raw[i]),
{
    lemma_margined_edges(o);
    assert(raw.len() == path.len() + 2);
    assert(raw[0] == loc_a(o));
    assert(raw[raw.len() - 1] == loc_b(o));
    assert forall|i: int| 1 <= i <= path.len() implies raw[i] == path[i - 1] by {}
    assert(path[0] == ext_a(o));
    assert(path[path.len() - 1] == ext_b(o));
    lemma_stub_aligned(o.point_a, margin_of(o));
    lemma_stub_aligned(o.point_b, margin_of(o));
    assert forall|i: int| 0 <= i < raw.len() - 1 implies (raw[i + 1] == raw[i] || aligned(
        #[trigger] raw[i],
        raw[i + 1],
    )) by {
        if i == 0 {
            assert(raw[0] == loc_of(o.point_a) && raw[1] == ext_of(o.point_a, margin_of(o)));
        } else if i == raw.len() - 2 {
            assert(raw[i] == ext_of(o.point_b, margin_of(o)) && raw[i + 1] == loc_of(o.point_b));
        } else {
            assert(links_of(o).contains((path[i - 1], path[i])));
            assert(eligible(o, raw[i], raw[i + 1]));
        }
    }
    assert forall|i: int| 0 <= i < raw.len() implies spot_set(o).contains(#[trigger] raw[i]) by {
        if i == 0 {
            assert(spot_set(o).contains(loc_a(o)));
        } else if i == raw.len() - 1 {
            assert(spot_set(o).contains(loc_b(o)));
        } else if i == raw.len() - 2 {
            assert(raw[i] == path[path.len() - 1]);
            assert(spot_set(o).contains(ext_b(o)));
        } else {
            assert(links_of(o).contains((path[i - 1], path[i])));
            assert(spot_set(o).contains(path[i - 1]));
            assert(raw[i] == path[i - 1]);
        }
    }
}

/// When the shapes clear each other's margined bounds, no step of the raw
/// chain cuts either shape: the escape stubs leave their own shape outward and
/// stay inside its margined bounds, and the walked edges clear both margined
/// bounds by construction.
#[verifier::rlimit(100)]
pub proof fn lemma_raw_chain_clear(o: OrthogonalConnectorOpts, path: Seq<Point>, raw: Seq<Point>)
    requires
        opts_wf(o),
        cp_valid(o.point_a),
        cp_valid(o.point_b),
        crate::graph::is_path(links_of(o), path, ext_a(o), ext_b(o)),
        raw =~= seq![loc_a(o)] + path + seq![loc_b(o)],
        shapes_separated(o),
    ensures
        no_cut_chain(raw, shape_a(o)),
        no_cut_chain(raw, shape_b(o)),
{
    lemma_margined_edges(o);
    assert(raw.len() == path.len() + 2);
    assert forall|i: int| 1 <= i <= path.len() implies raw[i] == path[i - 1] by {}
    assert(path[0] == ext_a(o));
    assert(path[path.len() - 1] == ext_b(o));
    lemma_stub_clear_own(o.point_a, margin_of(o));
    lemma_stub_clear_own(o.point_b, margin_of(o));
    lemma_stub_clear_other(o.point_a, margin_of(o), shape_b(o));
    lemma_stub_clear_other(o.point_b, margin_of(o), shape_a(o));
    assert forall|i: int| 0 <= i < raw.len() - 1 implies (raw[i + 1] == raw[i] || (!seg_cuts(
        #[trigger] raw[i],
        raw[i + 1],
        shape_a(o),
    ) && !seg_cuts(raw[i], raw[i + 1], shape_b(o)))) by {
        if i == 0 {
            assert(raw[0] == loc_of(o.point_a) && raw[1] == ext_of(o.point_a, margin_of(o)));
        } else if i == raw.len() - 2 {
            lemma_cut_sym(raw[i], raw[i + 1], shape_a(o));
            lemma_cut_sym(raw[i], raw[i + 1], shape_b(o));
            assert(raw[i] == ext_of(o.point_b, margin_of(o)) && raw[i + 1] == loc_of(
                o.point_b,
            ));
        } else {
            assert(links_of(o).contains((path[i - 1], path[i])));
            assert(eligible(o, raw[i], raw[i + 1]));
            assert(aligned(raw[i], raw[i + 1]));
            if seg_cuts(raw[i], raw[i + 1], shape_a(o)) {
                crate::geometry::lemma_cut_monotone(
                    raw[i],
                    raw[i + 1],
                    shape_a(o),
                    margined_a(o),
                );
            }
            if seg_cuts(raw[i], raw[i + 1], shape_b(o)) {
                crate::geometry::lemma_cut_monotone(
                    raw[i],
                    raw[i + 1],
                    shape_b(o),
                    margined_b(o),
                );
            }
        }
    }
}

/// The segment list read off a minimal-bend chain inherits the chain's
/// properties: axis-aligned non-degenerate segments, chained end to end, a
/// bend between every two, the chain's endpoints, and its obstacle clearance.
pub proof fn lemma_connection_props(
    o: OrthogonalConnectorOpts,
    out: Seq<Point>,
    lines: Seq<Line>,
)
    requires
        out.len() >= 1,
        strict_chain(out),
        min_bends(out),
        out[0] == loc_a(o),
        out[out.len() - 1] == loc_b(o),
        lines.len() == out.len() - 1,
        forall|s: int|
            0 <= s < lines.len() ==> (#[trigger] lines[s]).a == out[s] && lines[s].b == out[s + 1],
        forall|i: int| 0 <= i < out.len() ==> spot_set(o).contains(#[trigger] out[i]),
        shapes_separated(o) ==> (no_cut_chain(out, shape_a(o)) && no_cut_chain(out, shape_b(o))),
    ensures
        forall|i: int|
            0 <= i < lines.len() ==> (#[trigger] lines[i]).a != lines[i].b && aligned(
                lines[i].a,
                lines[i].b,
            ),
        forall|i: int| 0 <= i < lines.len() - 1 ==> (#[trigger] lines[i]).b == lines[i + 1].a,
        forall|i: int|
            0 <= i < lines.len() - 1 ==> !collinear(
                (#[trigger] lines[i]).a,
                lines[i].b,
                lines[i + 1].b,
            ),
        lines.len() == 0 ==> loc_a(o) == loc_b(o),
        lines.len() > 0 ==> (lines[0].a == loc_a(o) && lines[lines.len() - 1].b == loc_b(o)),
        forall|i: int|
            0 <= i < lines.len() ==> spot_set(o).contains((#[trigger] lines[i]).a) && spot_set(
                o,
            ).contains(lines[i].b),
        shapes_separated(o) ==> forall|i: int|
            0 <= i < lines.len() ==> (!seg_cuts((#[trigger] lines[i]).a, lines[i].b, shape_a(o))
                && !seg_cuts(lines[i].a, lines[i].b, shape_b(o))),
{
    if shapes_separated(o) {
        assert forall|i: int| 0 <= i < lines.len() implies (!seg_cuts(
            (#[trigger] lines[i]).a,
            lines[i].b,
            shape_a(o),
        ) && !seg_cuts(lines[i].a, lines[i].b, shape_b(o))) by {
            assert(out[i + 1] != out[i]);
            assert(out[i + 1] == out[i] || !seg_cuts(out[i], out[i + 1], shape_a(o)));
            assert(out[i + 1] == out[i] || !seg_cuts(out[i], out[i + 1], shape_b(o)));
        }
    }
}

/// One segment per consecutive pair of chain points.
fn build_connections(simplified: &Vec<Point>) -> (lines: Vec<Line>)
    requires
        simplified@.len() >= 1,
    ensures
        lines@.len() == simplified@.len() - 1,
        forall|s: int|
            0 <= s < lines@.len() ==> (#[trigger] lines@[s]).a == simplified@[s] && lines@[s].b
                == simplified@[s + 1],
{
    let mut lines: Vec<Line> = Vec::new();
    let mut t: usize = 0;
    while t < simplified.len() - 1
        invariant
            simplified@.len() >= 1,
            0 <= t <= simplified@.len() - 1,
            lines@.len() == t,
            forall|s: int|
                0 <= s < t ==> (#[trigger] lines@[s]).a == simplified@[s] && lines@[s].b
                    == simplified@[s + 1],
        decreases simplified@.len() - t,
    {
        lines.push(Line { a: simplified[t], b: simplified[t + 1] });
        t = t + 1;
    }
    lines
}

/// Computes the orthogonal connector path for the request: derives the rulers,
/// the routable grid, the candidate waypoints and the routing graph, finds the
/// cheapest walk between the two extruded connector points, and collapses it
/// into the minimal-bend polyline.
///
/// The result is `Ok` exactly when the request is well configured and the
/// waypoint graph joins the two connector points; a malformed request is
/// rejected before any grid is built.
#[verifier::rlimit(100)]
pub fn route(opts: &OrthogonalConnectorOpts) -> (r: Result<
    OrthogonalConnectorByproduct,
    RoutingError,
>)
    requires
        opts_wf(*opts),
    ensures
        is_invalid_err(r) <==> !valid_config(*opts),
        is_unroutable_err(r) <==> (valid_config(*opts) && !routable(*opts)),
        r is Ok <==> (valid_config(*opts) && routable(*opts)),
        r matches Ok(b) ==> {
            &&& sorted_strict(b.v_rulers@)
            &&& sorted_strict(b.h_rulers@)
            &&& seq_matches_set(b.v_rulers@, xs_set(*opts))
            &&& seq_matches_set(b.h_rulers@, ys_set(*opts))
            &&& (forall|c: Rect| #[trigger] b.grid@.contains(c) <==> grid_cell_spec(*opts, c))
            &&& (forall|p: Point| #[trigger] b.spots@.contains(p) <==> spot_set(*opts).contains(p))
            &&& (forall|i: int|
                0 <= i < b.connections@.len() ==> (#[trigger] b.connections@[i]).a
                    != b.connections@[i].b && aligned(b.connections@[i].a, b.connections@[i].b))
            &&& (forall|i: int|
                0 <= i < b.connections@.len() - 1 ==> (#[trigger] b.connections@[i]).b
                    == b.connections@[i + 1].a)
            &&& (forall|i: int|
                0 <= i < b.connections@.len() - 1 ==> !collinear(
                    (#[trigger] b.connections@[i]).a,
                    b.connections@[i].b,
                    b.connections@[i + 1].b,
                ))
            &&& (b.connections@.len() == 0 ==> loc_a(*opts) == loc_b(*opts))
            &&& (b.connections@.len() > 0 ==> (b.connections@[0].a == loc_a(*opts)
                && b.connections@[b.connections@.len() - 1].b == loc_b(*opts)))
            &&& (forall|i: int|
                0 <= i < b.connections@.len() ==> spot_set(*opts).contains(
                    (#[trigger] b.connections@[i]).a,
                ) && spot_set(*opts).contains(b.connections@[i].b))
            &&& (shapes_separated(*opts) ==> forall|i: int|
                0 <= i < b.connections@.len() ==> !seg_cuts(
                    (#[trigger] b.connections@[i]).a,
                    b.connections@[i].b,
                    shape_a(*opts),
                ) && !seg_cuts(b.connections@[i].a, b.connections@[i].b, shape_b(*opts)))
            &&& (exists|q: Seq<Point>|
                (#[trigger] crate::graph::is_path(links_of(*opts), q, ext_a(*opts), ext_b(*opts)))
                    && (forall|q2: Seq<Point>|
                    #[trigger] crate::graph::is_path(links_of(*opts), q2, ext_a(*opts), ext_b(*opts))
                        ==> crate::graph::walk_cost(links_cost(*opts), q2) >= crate::graph::walk_cost(
                        links_cost(*opts),
                        q,
                    )) && conn_len(b.connections@) <= crate::graph::walk_cost(links_cost(*opts), q)
                    + 2 * margin_of(*opts))
        },
{
    if !opts.point_a.is_valid() || !opts.point_b.is_valid() {
        return Err(RoutingError::InvalidConfiguration);
    }
    let la: Point = opts.point_a.resolve();
    let lb: Point = opts.point_b.resolve();
    match &opts.global_bounds {
        Some(gb) => {
            let gbr: Rect = gb.inflate(opts.global_bounds_margin, opts.global_bounds_margin);
            if !gbr.contains(&la) || !gbr.contains(&lb) {
                return Err(RoutingError::InvalidConfiguration);
            }
        },
        None => {},
    }
    proof {
        assert(valid_config(*opts));
        lemma_margined_edges(*opts);
    }
    let m: i32 = opts.shape_margin;
    let ma: Rect = opts.point_a.shape.inflate(m, m);
    let mb: Rect = opts.point_b.shape.inflate(m, m);
    proof {
        lemma_rect_eq(
            ma,
            rect_left(shape_a(*opts)) - margin_of(*opts),
            rect_top(shape_a(*opts)) - margin_of(*opts),
            rect_right(shape_a(*opts)) + margin_of(*opts),
            rect_bot(shape_a(*opts)) + margin_of(*opts),
        );
        lemma_rect_eq(
            mb,
            rect_left(shape_b(*opts)) - margin_of(*opts),
            rect_top(shape_b(*opts)) - margin_of(*opts),
            rect_right(shape_b(*opts)) + margin_of(*opts),
            rect_bot(shape_b(*opts)) + margin_of(*opts),
        );
        assert(ma == margined_a(*opts));
        assert(mb == margined_b(*opts));
    }
    let ea: Point = opts.point_a.extruded(m);
    let eb: Point = opts.point_b.extruded(m);
    let rulers = build_rulers(opts);
    let xs: Vec<i32> = rulers.0;
    let ys: Vec<i32> = rulers.1;
    let grid: Vec<Rect> = build_cells(opts, &xs, &ys, &ma, &mb);
    let spots: Vec<Point> = build_spots(opts, &grid, la, lb, ea, eb);
    let g = build_graph(opts, &spots, &ma, &mb);
    proof {
        assert(spot_set(*opts).contains(ext_a(*opts)));
        assert(spot_set(*opts).contains(ext_b(*opts)));
    }
    let path: Vec<Point> = match g.shortest_path(ea, eb) {
        Some(p) => p,
        None => {
            proof {
                assert(!routable(*opts)) by {
                    if routable(*opts) {
                        let q = choose|q: Seq<Point>|
                            crate::graph::is_path(links_of(*opts), q, ext_a(*opts), ext_b(*opts));
                        assert(crate::graph::is_path(
                            crate::graph::graph_links(g),
                            q,
                            ext_a(*opts),
                            ext_b(*opts),
                        ));
                    }
                }
            }
            return Err(RoutingError::Unroutable);
        },
    };
    proof {
        assert(crate::graph::is_path(links_of(*opts), path@, ext_a(*opts), ext_b(*opts)));
        assert(routable(*opts));
    }
    let mut raw: Vec<Point> = Vec::new();
    raw.push(la);
    let mut k: usize = 0;
    while k < path.len()
        invariant
            0 <= k <= path@.len(),
            raw@ =~= seq![la] + path@.take(k as int),
        decreases path@.len() - k,
    {
        raw.push(path[k]);
        proof {
            assert(raw@ =~= seq![la] + path@.take(k + 1 as int));
        }
        k = k + 1;
    }
    raw.push(lb);
    proof {
        assert(path@.take(path@.len() as int) =~= path@);
        assert(raw@ =~= seq![la] + path@ + seq![lb]);
        lemma_raw_chain(*opts, path@, raw@);
    }
    let simplified: Vec<Point> = simplify_polyline(&raw);
    let connections: Vec<Line> = build_connections(&simplified);
    proof {
        if shapes_separated(*opts) {
            lemma_raw_chain_clear(*opts, path@, raw@);
            assert(no_cut_chain(simplified@, shape_a(*opts)));
            assert(no_cut_chain(simplified@, shape_b(*opts)));
        }
        assert forall|i: int| 0 <= i < simplified@.len() implies spot_set(*opts).contains(
            #[trigger] simplified@[i],
        ) by {
            assert(raw@.contains(simplified@[i]));
            let k = choose|k: int| 0 <= k < raw@.len() && raw@[k] == simplified@[i];
        }
        lemma_connection_props(*opts, simplified@, connections@);
        lemma_walk_cost_is_chain_len(*opts, path@);
        lemma_chain_len_raw(la, path@, lb, raw@);
        lemma_stub_len(opts.point_a, margin_of(*opts));
        lemma_stub_len(opts.point_b, margin_of(*opts));
        assert(axis_len(la, path@[0]) == margin_of(*opts)) by {
            assert(axis_len(loc_of(opts.point_a), ext_of(opts.point_a, margin_of(*opts)))
                == margin_of(*opts));
            assert(axis_len(la, path@[0]) == axis_len(ext_of(opts.point_a, margin_of(*opts)), la))
                by {
                assert(path@[0] == ext_a(*opts));
            }
            assert(axis_len(la, path@[0]) == axis_len(path@[0], la));
        }
        assert(axis_len(path@[path@.len() - 1], lb) == margin_of(*opts)) by {
            assert(path@[path@.len() - 1] == ext_b(*opts));
            assert(axis_len(loc_of(opts.point_b), ext_of(opts.point_b, margin_of(*opts)))
                == margin_of(*opts));
            assert(axis_len(path@[path@.len() - 1], lb) == axis_len(lb, path@[path@.len() - 1]));
        }
        lemma_conn_len_is_chain_len(simplified@, connections@);
        assert(conn_len(connections@) <= crate::graph::walk_cost(links_cost(*opts), path@) + 2
            * margin_of(*opts));
    }
    Ok(
        OrthogonalConnectorByproduct {
            h_rulers: ys,
            v_rulers: xs,
            spots,
            grid,
            connections,
        },
    )
}

} // verus!

