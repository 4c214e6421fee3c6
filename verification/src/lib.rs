pub mod geometry;
pub mod graph;
pub mod router;

pub use geometry::{
    aligned, collinear, coord_ok, direction_of, make_point, make_size, min_max, rect_bot,
    rect_has_point, rect_left, rect_ok, rect_right, rect_top, rects_intersect, seg_cuts,
    segment_cuts_rect, BasicCardinalPoint, BendDirection, Direction, Line, Point, Rect, Side, Size,
};
pub use graph::PointGraph;
pub use router::{
    route, simplify_polyline, ConnectorPoint, OrthogonalConnectorByproduct,
    OrthogonalConnectorOpts, RoutingError,
};
