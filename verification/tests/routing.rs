use orthogonal_connector::{
    make_point, make_size, route, ConnectorPoint, Line, OrthogonalConnectorOpts, PointGraph, Rect,
    RoutingError, Side,
};

fn rect(x: i32, y: i32, w: i32, h: i32) -> Rect {
    Rect { origin: make_point(x, y), size: make_size(w, h) }
}

fn cp(shape: Rect, side: Side, distance: i32) -> ConnectorPoint {
    ConnectorPoint { shape, side, distance }
}

fn segments_are_orthogonal(lines: &[Line]) -> bool {
    lines.iter().all(|l| l.a.x == l.b.x || l.a.y == l.b.y)
}

fn segments_are_chained(lines: &[Line]) -> bool {
    lines.windows(2).all(|w| w[0].b == w[1].a)
}

fn no_three_collinear(lines: &[Line]) -> bool {
    lines.windows(2).all(|w| {
        let (a, b, c) = (w[0].a, w[0].b, w[1].b);
        !((a.x == b.x && b.x == c.x) || (a.y == b.y && b.y == c.y))
    })
}

#[test]
fn straight_shot_between_facing_sides() {
    // Two 100 x 100 shapes, side by side, connected right-mid to left-mid:
    // a single horizontal segment, no bends.
    let a = cp(rect(0, 0, 100, 100), Side::Right, 50);
    let b = cp(rect(300, 0, 100, 100), Side::Left, 50);
    let opts = OrthogonalConnectorOpts {
        point_a: a,
        point_b: b,
        shape_margin: 10,
        global_bounds_margin: 0,
        global_bounds: None,
    };
    let by = route(&opts).unwrap();
    assert_eq!(by.connections, vec![Line { a: make_point(100, 50), b: make_point(300, 50) }]);
    assert!(by.spots.contains(&make_point(100, 50)));
    assert!(by.spots.contains(&make_point(300, 50)));
    assert!(by.v_rulers.windows(2).all(|w| w[0] < w[1]));
    assert!(by.h_rulers.windows(2).all(|w| w[0] < w[1]));
}

#[test]
fn offset_shapes_route_with_two_bends() {
    let a = cp(rect(0, 0, 100, 100), Side::Right, 50);
    let b = cp(rect(300, 200, 100, 100), Side::Left, 50);
    let opts = OrthogonalConnectorOpts {
        point_a: a,
        point_b: b,
        shape_margin: 10,
        global_bounds_margin: 0,
        global_bounds: None,
    };
    let by = route(&opts).unwrap();
    let lines = &by.connections;
    assert_eq!(lines.first().unwrap().a, make_point(100, 50));
    assert_eq!(lines.last().unwrap().b, make_point(300, 250));
    assert!(segments_are_orthogonal(lines));
    assert!(segments_are_chained(lines));
    assert!(no_three_collinear(lines));
    assert_eq!(lines.len(), 3, "an L- or Z-shaped route: exactly two bends");
}

#[test]
fn route_avoids_the_shapes() {
    let sa = rect(0, 0, 100, 100);
    let sb = rect(300, 200, 100, 100);
    let a = cp(sa, Side::Right, 50);
    let b = cp(sb, Side::Left, 50);
    let opts = OrthogonalConnectorOpts {
        point_a: a,
        point_b: b,
        shape_margin: 10,
        global_bounds_margin: 0,
        global_bounds: None,
    };
    let by = route(&opts).unwrap();
    for l in &by.connections {
        for shape in [&sa, &sb] {
            // No interior crossing: an axis-aligned segment cuts a rectangle
            // only if it runs strictly between two opposite edges and overlaps
            // the open span of the other axis.
            let cut = if l.a.y == l.b.y {
                let (lo, hi) = (l.a.x.min(l.b.x), l.a.x.max(l.b.x));
                l.a.y > shape.top() && l.a.y < shape.bottom() && hi > shape.left() && lo
                    < shape.right()
            } else {
                let (lo, hi) = (l.a.y.min(l.b.y), l.a.y.max(l.b.y));
                l.a.x > shape.left() && l.a.x < shape.right() && hi > shape.top() && lo
                    < shape.bottom()
            };
            assert!(!cut, "segment {:?} crosses shape {:?}", l, shape);
        }
    }
}

#[test]
fn identical_requests_give_identical_results() {
    let a = cp(rect(0, 0, 100, 100), Side::Bottom, 20);
    let b = cp(rect(250, 180, 120, 60), Side::Top, 90);
    let opts = OrthogonalConnectorOpts {
        point_a: a,
        point_b: b,
        shape_margin: 15,
        global_bounds_margin: 5,
        global_bounds: Some(rect(-100, -100, 600, 600)),
    };
    let first = route(&opts).unwrap();
    let second = route(&opts).unwrap();
    assert_eq!(first.h_rulers, second.h_rulers);
    assert_eq!(first.v_rulers, second.v_rulers);
    assert_eq!(first.spots, second.spots);
    assert_eq!(first.grid, second.grid);
    assert_eq!(first.connections, second.connections);
}

#[test]
fn bounds_excluding_an_endpoint_are_invalid() {
    let a = cp(rect(0, 0, 100, 100), Side::Right, 50);
    let b = cp(rect(300, 0, 100, 100), Side::Left, 50);
    let opts = OrthogonalConnectorOpts {
        point_a: a,
        point_b: b,
        shape_margin: 10,
        global_bounds_margin: 0,
        global_bounds: Some(rect(0, 0, 200, 200)),
    };
    assert!(matches!(route(&opts), Err(RoutingError::InvalidConfiguration)));
}

#[test]
fn offset_outside_its_side_is_invalid() {
    let a = cp(rect(0, 0, 100, 100), Side::Right, 101);
    let b = cp(rect(300, 0, 100, 100), Side::Left, 50);
    let opts = OrthogonalConnectorOpts {
        point_a: a,
        point_b: b,
        shape_margin: 10,
        global_bounds_margin: 0,
        global_bounds: None,
    };
    assert!(matches!(route(&opts), Err(RoutingError::InvalidConfiguration)));
}

#[test]
fn engulfed_shape_is_unroutable() {
    // The first shape's margined bounds fully contain the second shape.
    let a = cp(rect(0, 0, 100, 100), Side::Right, 50);
    let b = cp(rect(110, 10, 30, 30), Side::Right, 15);
    let opts = OrthogonalConnectorOpts {
        point_a: a,
        point_b: b,
        shape_margin: 50,
        global_bounds_margin: 0,
        global_bounds: None,
    };
    assert!(matches!(route(&opts), Err(RoutingError::Unroutable)));
}

#[test]
fn larger_margin_keeps_cells_excluded() {
    // The exclusion test is monotone in the margin: a cell that overlaps the
    // shape at margin 10 still overlaps it at margin 30.
    let shape = rect(0, 0, 100, 100);
    let cell = rect(105, 40, 20, 20);
    assert!(cell.intersects(&shape.inflate(10, 10)));
    assert!(cell.intersects(&shape.inflate(30, 30)));
    // A far-away cell stays routable either way.
    let far = rect(500, 40, 20, 20);
    assert!(!far.intersects(&shape.inflate(10, 10)));
    assert!(!far.intersects(&shape.inflate(30, 30)));
}

#[test]
fn point_graph_finds_the_cheap_detour() {
    let mut g = PointGraph::new();
    let o = make_point(0, 0);
    let east = make_point(10, 0);
    let corner = make_point(10, 10);
    let far = make_point(200, 0);
    g.add(o);
    g.add(east);
    g.add(corner);
    g.add(far);
    assert!(g.has(&east));
    assert!(!g.has(&make_point(99, 99)));
    // Two routes to the corner: direct through `east` (cost 20) or the long
    // way around through `far` (cost 600).
    g.connect(o, east, 10);
    g.connect(east, corner, 10);
    g.connect(o, far, 200);
    g.connect(far, corner, 400);
    let path = g.shortest_path(o, corner).unwrap();
    assert_eq!(path, vec![o, east, corner]);
    // No edges lead back: the reverse direction is unreachable.
    assert_eq!(g.shortest_path(corner, o), None);
    // A trivial walk: start equals goal.
    assert_eq!(g.shortest_path(o, o).unwrap(), vec![o]);
}

#[test]
fn touching_margins_still_route() {
    // Shapes exactly one margin apart: the corridor between them closes, but
    // the facing sides can still be joined through the touching line.
    let a = cp(rect(0, 0, 100, 100), Side::Right, 50);
    let b = cp(rect(120, 0, 100, 100), Side::Left, 50);
    let opts = OrthogonalConnectorOpts {
        point_a: a,
        point_b: b,
        shape_margin: 10,
        global_bounds_margin: 0,
        global_bounds: None,
    };
    let by = route(&opts).unwrap();
    let lines = &by.connections;
    assert_eq!(lines.first().unwrap().a, make_point(100, 50));
    assert_eq!(lines.last().unwrap().b, make_point(120, 50));
    assert!(segments_are_orthogonal(lines));
    assert!(segments_are_chained(lines));
    assert!(no_three_collinear(lines));
}

#[test]
fn zero_margin_routes_along_boundaries() {
    let a = cp(rect(0, 0, 100, 100), Side::Right, 50);
    let b = cp(rect(300, 0, 100, 100), Side::Left, 50);
    let opts = OrthogonalConnectorOpts {
        point_a: a,
        point_b: b,
        shape_margin: 0,
        global_bounds_margin: 0,
        global_bounds: None,
    };
    let by = route(&opts).unwrap();
    assert_eq!(by.connections, vec![Line { a: make_point(100, 50), b: make_point(300, 50) }]);
}
