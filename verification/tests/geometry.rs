use orthogonal_connector::{
    direction_of, make_point, make_size, min_max, simplify_polyline, segment_cuts_rect,
    ConnectorPoint, Direction, Point, Rect, Side, Size,
};

fn rect(x: i32, y: i32, w: i32, h: i32) -> Rect {
    Rect { origin: make_point(x, y), size: make_size(w, h) }
}

#[test]
fn makers_keep_fields() {
    let p = make_point(3, -4);
    assert_eq!(p.x, 3);
    assert_eq!(p.y, -4);
    let s = make_size(7, 9);
    assert_eq!(s.width, 7);
    assert_eq!(s.height, 9);
}

#[test]
fn direction_classification() {
    let a = make_point(0, 5);
    assert!(matches!(direction_of(&a, &make_point(9, 5)), Direction::Horizontal));
    assert!(matches!(direction_of(&a, &make_point(0, 9)), Direction::Vertical));
    assert!(matches!(direction_of(&a, &make_point(1, 9)), Direction::Other));
    assert!(matches!(direction_of(&a, &a), Direction::Horizontal));
}

#[test]
fn rect_accessors_and_corners() {
    let r = Rect::from_ltrb(10, 20, 110, 80);
    assert_eq!(r.left(), 10);
    assert_eq!(r.top(), 20);
    assert_eq!(r.right(), 110);
    assert_eq!(r.bottom(), 80);
    assert_eq!(r.width(), 100);
    assert_eq!(r.height(), 60);
    assert_eq!(r.size(), Size { width: 100, height: 60 });
    assert_eq!(r.location(), make_point(10, 20));
    assert_eq!(r.north_west(), make_point(10, 20));
    assert_eq!(r.north_east(), make_point(110, 20));
    assert_eq!(r.south_west(), make_point(10, 80));
    assert_eq!(r.south_east(), make_point(110, 80));
    assert_eq!(r.center(), make_point(60, 50));
    assert_eq!(r.north(), make_point(60, 20));
    assert_eq!(r.south(), make_point(60, 80));
    assert_eq!(r.west(), make_point(10, 50));
    assert_eq!(r.east(), make_point(110, 50));
}

#[test]
fn contains_is_inclusive() {
    let r = rect(0, 0, 10, 10);
    assert!(r.contains(&make_point(0, 0)));
    assert!(r.contains(&make_point(10, 10)));
    assert!(r.contains(&make_point(5, 10)));
    assert!(!r.contains(&make_point(11, 5)));
    assert!(!r.contains(&make_point(5, -1)));
}

#[test]
fn intersects_is_open() {
    let r = rect(0, 0, 10, 10);
    // Edge-touching rectangles do not intersect.
    assert!(!r.intersects(&rect(10, 0, 10, 10)));
    assert!(!r.intersects(&rect(0, 10, 10, 10)));
    // Overlapping ones do.
    assert!(r.intersects(&rect(9, 9, 10, 10)));
    assert!(r.intersects(&rect(-5, -5, 20, 20)));
    // A zero-width rectangle still overlaps when it runs strictly inside the
    // other's span, but not when it lies on the boundary line.
    assert!(r.intersects(&rect(5, 5, 0, 10)));
    assert!(!r.intersects(&rect(10, 5, 0, 10)));
}

#[test]
fn inflate_grows_all_sides() {
    let r = rect(10, 20, 30, 40).inflate(5, 7);
    assert_eq!(r.left(), 5);
    assert_eq!(r.top(), 13);
    assert_eq!(r.right(), 45);
    assert_eq!(r.bottom(), 67);
}

#[test]
fn inflate_round_trips_with_negated_arguments() {
    let r = rect(10, 20, 30, 40);
    assert_eq!(r.inflate(5, 7).inflate(-5, -7), r);
    let shrunk = r.inflate(-5, -7);
    assert_eq!(shrunk.left(), 15);
    assert_eq!(shrunk.top(), 27);
    assert_eq!(shrunk.right(), 35);
    assert_eq!(shrunk.bottom(), 53);
}

#[test]
fn union_spans_both() {
    let u = rect(0, 0, 10, 10).union(&rect(20, -5, 5, 10));
    assert_eq!(u.left(), 0);
    assert_eq!(u.top(), -5);
    assert_eq!(u.right(), 25);
    assert_eq!(u.bottom(), 10);
}

#[test]
fn min_max_of_slice() {
    let vals: [i32; 4] = [4, -2, 9, 0];
    let (lo, hi) = min_max(&vals);
    assert_eq!(lo, -2);
    assert_eq!(hi, 9);
    let single: [i32; 1] = [7];
    assert_eq!(min_max(&single), (7, 7));
}

#[test]
fn segment_cut_needs_interior() {
    let r = rect(0, 0, 10, 10);
    // Runs along the boundary: only touches, no cut.
    assert!(!segment_cuts_rect(&make_point(-5, 0), &make_point(15, 0), &r));
    // Crosses the interior.
    assert!(segment_cuts_rect(&make_point(-5, 5), &make_point(15, 5), &r));
    assert!(segment_cuts_rect(&make_point(5, -5), &make_point(5, 15), &r));
    // Stops at the edge: no interior point.
    assert!(!segment_cuts_rect(&make_point(10, 5), &make_point(20, 5), &r));
    // Degenerate rectangle has no interior.
    assert!(!segment_cuts_rect(&make_point(-5, 5), &make_point(15, 5), &rect(0, 0, 0, 10)));
}

#[test]
fn connector_point_validity() {
    let shape = rect(0, 0, 100, 60);
    let cp = ConnectorPoint { shape, side: Side::Top, distance: 100 };
    assert!(cp.is_valid());
    let cp2 = ConnectorPoint { shape, side: Side::Top, distance: 101 };
    assert!(!cp2.is_valid());
    let cp3 = ConnectorPoint { shape, side: Side::Right, distance: 60 };
    assert!(cp3.is_valid());
    let cp4 = ConnectorPoint { shape, side: Side::Right, distance: -1 };
    assert!(!cp4.is_valid());
}

#[test]
fn connector_point_resolution() {
    let shape = rect(10, 20, 100, 60);
    let top = ConnectorPoint { shape, side: Side::Top, distance: 30 };
    assert_eq!(top.resolve(), make_point(40, 20));
    let bottom = ConnectorPoint { shape, side: Side::Bottom, distance: 30 };
    assert_eq!(bottom.resolve(), make_point(40, 80));
    let left = ConnectorPoint { shape, side: Side::Left, distance: 15 };
    assert_eq!(left.resolve(), make_point(10, 35));
    let right = ConnectorPoint { shape, side: Side::Right, distance: 15 };
    assert_eq!(right.resolve(), make_point(110, 35));
}

#[test]
fn connector_point_extrusion() {
    let shape = rect(10, 20, 100, 60);
    let top = ConnectorPoint { shape, side: Side::Top, distance: 30 };
    assert_eq!(top.extruded(5), make_point(40, 15));
    let bottom = ConnectorPoint { shape, side: Side::Bottom, distance: 30 };
    assert_eq!(bottom.extruded(5), make_point(40, 85));
    let left = ConnectorPoint { shape, side: Side::Left, distance: 15 };
    assert_eq!(left.extruded(5), make_point(5, 35));
    let right = ConnectorPoint { shape, side: Side::Right, distance: 15 };
    assert_eq!(right.extruded(5), make_point(115, 35));
    // Zero margin keeps the resolved point.
    assert_eq!(right.extruded(0), right.resolve());
}

#[test]
fn simplify_drops_collinear_middles() {
    let pts = vec![
        make_point(0, 0),
        make_point(5, 0),
        make_point(9, 0),
        make_point(9, 4),
        make_point(9, 9),
        make_point(12, 9),
    ];
    let out = simplify_polyline(&pts);
    assert_eq!(
        out,
        vec![make_point(0, 0), make_point(9, 0), make_point(9, 9), make_point(12, 9)]
    );
}

#[test]
fn simplify_keeps_single_point_and_drops_duplicates() {
    let one = vec![make_point(3, 3)];
    assert_eq!(simplify_polyline(&one), vec![make_point(3, 3)]);
    let dup = vec![make_point(3, 3), make_point(3, 3), make_point(3, 8)];
    assert_eq!(simplify_polyline(&dup), vec![make_point(3, 3), make_point(3, 8)]);
}

#[test]
fn simplify_collapses_backtracking() {
    // Out along a line and straight back: the excursion is collinear.
    let pts = vec![make_point(0, 0), make_point(10, 0), make_point(4, 0), make_point(4, 6)];
    let out = simplify_polyline(&pts);
    assert_eq!(out, vec![make_point(0, 0), make_point(4, 0), make_point(4, 6)]);
}
