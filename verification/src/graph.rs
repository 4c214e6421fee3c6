use vstd::prelude::*;

use crate::geometry::Point;

verus! {

/// The points interned as nodes of the graph.
pub uninterp spec fn graph_points(g: PointGraph) -> Set<Point>;

/// The directed edges of the graph, each as the ordered pair of its endpoints.
pub uninterp spec fn graph_links(g: PointGraph) -> Set<(Point, Point)>;

/// The cost stored on each directed edge, keyed by its endpoint pair; its
/// domain is the edge set.
pub uninterp spec fn graph_costs(g: PointGraph) -> Map<(Point, Point), u64>;

/// The cost map holds no edges.
pub open spec fn costs_empty(m: Map<(Point, Point), u64>) -> bool {
    m =~= Map::<(Point, Point), u64>::empty()
}

/// Total cost of a walk, summed edge by edge.
pub open spec fn walk_cost(costs: Map<(Point, Point), u64>, p: Seq<Point>) -> int
    decreases p.len(),
{
    if p.len() <= 1 {
        0
    } else {
        costs[(p[0], p[1])] + walk_cost(costs, p.skip(1))
    }
}

/// A sequence of points walks from `a` to `b` along directed edges of `links`.
pub open spec fn is_path(links: Set<(Point, Point)>, p: Seq<Point>, a: Point, b: Point) -> bool {
    &&& p.len() >= 1
    &&& p[0] == a
    &&& p[p.len() - 1] == b
    &&& forall|i: int| 0 <= i < p.len() - 1 ==> links.contains((#[trigger] p[i], p[i + 1]))
}

/// Weighted graph over points, deduplicated by exact coordinate: a dense node
/// arena plus a point-to-index map, with edges referencing nodes by index.
#[verifier::external_body]
pub struct PointGraph {
    graph: petgraph::Graph<Point, u64>,
    nodes: std::collections::HashMap<Point, petgraph::graph::NodeIndex>,
}

impl PointGraph {
    /// Relies on petgraph::Graph::new and std HashMap::new: a fresh graph has
    /// no nodes and no edges.
    #[verifier::external_body]
    pub fn new() -> (g: PointGraph)
        ensures
            graph_points(g) == Set::<Point>::empty(),
            graph_links(g) == Set::<(Point, Point)>::empty(),
            costs_empty(graph_costs(g)),
    {
        PointGraph { graph: petgraph::Graph::new(), nodes: std::collections::HashMap::new() }
    }

    /// Relies on petgraph::Graph::add_node and std HashMap insert/get: interns
    /// the point as a node, once per distinct coordinate. The node-count bound
    /// keeps add_node from reaching petgraph's index limit.
    #[verifier::external_body]
    pub fn add(&mut self, pt: Point)
        requires
            graph_points(*old(self)).len() < 1_000_000,
        ensures
            graph_points(*final(self)) == graph_points(*old(self)).insert(pt),
            graph_links(*final(self)) == graph_links(*old(self)),
            graph_costs(*final(self)) == graph_costs(*old(self)),
    {
        if !self.nodes.contains_key(&pt) {
            let ndx = self.graph.add_node(pt);
            self.nodes.insert(pt, ndx);
        }
    }

    /// Relies on petgraph::Graph::add_edge: records one directed edge from `a`
    /// to `b` carrying `weight` as its cost. Both endpoints must already be
    /// nodes, the edge must be new, and the edge-count bound keeps add_edge
    /// from reaching petgraph's index limit. The weight bound keeps every cost
    /// the search can accumulate far below `u64::MAX`: with fewer than a
    /// million nodes and no duplicate edge, a walk the search extends never
    /// sums more than node count times the largest weight.
    #[verifier::external_body]
    pub fn connect(&mut self, a: Point, b: Point, weight: u64)
        requires
            graph_points(*old(self)).contains(a),
            graph_points(*old(self)).contains(b),
            !graph_links(*old(self)).contains((a, b)),
            graph_links(*old(self)).len() < 1_000_000_000,
            weight <= 1_000_000_000,
        ensures
            graph_points(*final(self)) == graph_points(*old(self)),
            graph_links(*final(self)) == graph_links(*old(self)).insert((a, b)),
            graph_costs(*final(self)) == graph_costs(*old(self)).insert((a, b), weight),
    {
        let na = *self.nodes.get(&a).unwrap();
        let nb = *self.nodes.get(&b).unwrap();
        self.graph.add_edge(na, nb, weight);
    }

    /// Relies on std HashMap::contains_key: whether the point was interned.
    #[verifier::external_body]
    pub fn has(&self, p: &Point) -> (res: bool)
        ensures
            res == graph_points(*self).contains(*p),
    {
        self.nodes.contains_key(p)
    }

    /// Relies on petgraph::algo::astar with a zero estimate (Dijkstra's
    /// search) over the stored edge costs: when it returns a path, that path
    /// walks directed edges from `start` to `goal` and no other such walk sums
    /// to a smaller cost; when it returns nothing, no walk along the directed
    /// edges joins them.
    #[verifier::external_body]
    pub fn shortest_path(&self, start: Point, goal: Point) -> (r: Option<Vec<Point>>)
        requires
            graph_points(*self).contains(start),
            graph_points(*self).contains(goal),
        ensures
            match r {
                Some(p) => is_path(graph_links(*self), p@, start, goal) && forall|q: Seq<Point>|
                    #[trigger] is_path(graph_links(*self), q, start, goal) ==> walk_cost(
                        graph_costs(*self),
                        q,
                    ) >= walk_cost(graph_costs(*self), p@),
                None => !(exists|q: Seq<Point>| is_path(graph_links(*self), q, start, goal)),
            },
    {
        let s = *self.nodes.get(&start).unwrap();
        let g = *self.nodes.get(&goal).unwrap();
        let found = petgraph::algo::astar(&self.graph, s, |n| n == g, |e| *e.weight(), |_| 0u64)?;
        Some(found.1.iter().map(|ix| self.graph[*ix]).collect())
    }
}

} // verus!
