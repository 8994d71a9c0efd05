//! The textual definition of a graph (its nodes and weighted edges) and the
//! sequence of insertions that turns a definition into a weighted graph.

use vstd::prelude::*;

verus! {

/// A node name, as the specification sees it.
pub type Name = Seq<char>;

/// An edge `(from, to, weight)`, as the specification sees it.
pub type EdgeView = (Seq<char>, Seq<char>, i32);

/// What a [`GraphDef`] holds: its node names and its edges, in order.
pub ghost struct GraphDefView {
    pub nodes: Seq<Name>,
    pub edges: Seq<EdgeView>,
}

/// One insertion into a weighted graph, as the specification sees it.
pub ghost enum GraphStep {
    Node(Name),
    Edge(Name, Name, i32),
}

/// One insertion into an empty weighted graph: a node, or a weighted edge
/// from the first name to the second.
#[derive(Debug, PartialEq, Eq)]
pub enum GraphOp {
    InsertNode(String),
    InsertEdge(String, String, i32),
}

impl View for GraphOp {
    type V = GraphStep;

    open spec fn view(&self) -> GraphStep {
        match self {
            GraphOp::InsertNode(n) => GraphStep::Node(n@),
            GraphOp::InsertEdge(a, b, w) => GraphStep::Edge(a@, b@, *w),
        }
    }
}

/// The insertions that a sequence of operations performs.
pub open spec fn steps_of(ops: Seq<GraphOp>) -> Seq<GraphStep> {
    ops.map_values(|o: GraphOp| o@)
}

/// A graph as written by the user: node names and `(from, to, weight)` edges.
pub struct GraphDef {
    nodes: Vec<String>,
    edges: Vec<(String, String, i32)>,
}

/// The view of one edge.
pub open spec fn edge_view(e: (String, String, i32)) -> EdgeView {
    (e.0@, e.1@, e.2)
}

impl View for GraphDef {
    type V = GraphDefView;

    closed spec fn view(&self) -> GraphDefView {
        GraphDefView {
            nodes: self.nodes@.map_values(|s: String| s@),
            edges: self.edges@.map_values(|e: (String, String, i32)| edge_view(e)),
        }
    }
}

/// Inserting every node of `nodes`, in order.
pub open spec fn node_steps(nodes: Seq<Name>) -> Seq<GraphStep> {
    nodes.map_values(|n: Name| GraphStep::Node(n))
}

/// Inserting an edge in its own direction.
pub open spec fn forward_step(e: EdgeView) -> GraphStep {
    GraphStep::Edge(e.0, e.1, e.2)
}

/// Inserting an edge in the opposite direction, with the same weight.
pub open spec fn backward_step(e: EdgeView) -> GraphStep {
    GraphStep::Edge(e.1, e.0, e.2)
}

/// Inserting every edge in its own direction.
pub open spec fn forward_edge_steps(edges: Seq<EdgeView>) -> Seq<GraphStep> {
    edges.map_values(|e: EdgeView| forward_step(e))
}

/// Inserting every edge in both directions: edge `k` gives the steps `2k`
/// (its own direction) and `2k + 1` (the opposite one).
pub open spec fn both_ways_edge_steps(edges: Seq<EdgeView>) -> Seq<GraphStep> {
    Seq::new(
        2 * edges.len(),
        |i: int|
            if i % 2 == 0 {
                forward_step(edges[i / 2])
            } else {
                backward_step(edges[i / 2])
            },
    )
}

/// The insertions that build the directed graph of a definition: every node,
/// then every edge.
pub open spec fn directed_steps(d: GraphDefView) -> Seq<GraphStep> {
    node_steps(d.nodes) + forward_edge_steps(d.edges)
}

/// The insertions that build the undirected graph of a definition: every node,
/// then every edge followed by its reverse.
pub open spec fn undirected_steps(d: GraphDefView) -> Seq<GraphStep> {
    node_steps(d.nodes) + both_ways_edge_steps(d.edges)
}

/// Owned copies of the given names.
fn owned_names(names: &Vec<&str>) -> (r: Vec<String>)
    ensures
        r@.map_values(|s: String| s@) == names@.map_values(|s: &str| s@),
{
    let mut owned: Vec<String> = Vec::new();
    let mut i: usize = 0;
    while i < names.len()
        invariant
            i <= names.len(),
            owned@.len() == i,
            forall|k: int| 0 <= k < i ==> #[trigger] owned@[k]@ == names@[k]@,
        decreases names.len() - i,
    {
        owned.push(names[i].to_owned());
        i += 1;
    }
    assert(owned@.map_values(|s: String| s@) =~= names@.map_values(|s: &str| s@));
    owned
}

/// The view of a borrowed edge.
pub open spec fn borrowed_edge_view(e: (&str, &str, i32)) -> EdgeView {
    (e.0@, e.1@, e.2)
}

/// Owned copies of the given edges.
fn owned_edges(edges: &Vec<(&str, &str, i32)>) -> (r: Vec<(String, String, i32)>)
    ensures
        r@.map_values(|e: (String, String, i32)| edge_view(e)) == edges@.map_values(
            |e: (&str, &str, i32)| borrowed_edge_view(e),
        ),
{
    let mut owned: Vec<(String, String, i32)> = Vec::new();
    let mut i: usize = 0;
    while i < edges.len()
        invariant
            i <= edges.len(),
            owned@.len() == i,
            forall|k: int|
                0 <= k < i ==> edge_view(#[trigger] owned@[k]) == borrowed_edge_view(edges@[k]),
        decreases edges.len() - i,
    {
        let (x, y, z) = edges[i];
        owned.push((x.to_owned(), y.to_owned(), z));
        i += 1;
    }
    assert(owned@.map_values(|e: (String, String, i32)| edge_view(e)) =~= edges@.map_values(
        |e: (&str, &str, i32)| borrowed_edge_view(e),
    ));
    owned
}

impl Default for GraphDef {
    fn default() -> (r: Self)
        ensures
            r@.nodes == Seq::<Name>::empty(),
            r@.edges == Seq::<EdgeView>::empty(),
    {
        let r = GraphDef { nodes: Vec::new(), edges: Vec::new() };
        assert(r@.nodes =~= Seq::<Name>::empty());
        assert(r@.edges =~= Seq::<EdgeView>::empty());
        r
    }
}

impl GraphDef {
    /// The empty definition: no nodes, no edges.
    pub fn new() -> (r: Self)
        ensures
            r@.nodes == Seq::<Name>::empty(),
            r@.edges == Seq::<EdgeView>::empty(),
    {
        Self::default()
    }

    /// The same definition with its nodes replaced by copies of `nodes`.
    pub fn with_nodes(self, nodes: Vec<&str>) -> (r: Self)
        ensures
            r@.nodes == nodes@.map_values(|s: &str| s@),
            r@.edges == self@.edges,
    {
        let owned = owned_names(&nodes);
        GraphDef { nodes: owned, edges: self.edges }
    }

    /// The same definition with its edges replaced by copies of `edges`.
    pub fn with_edges(self, edges: Vec<(&str, &str, i32)>) -> (r: Self)
        ensures
            r@.nodes == self@.nodes,
            r@.edges == edges@.map_values(|e: (&str, &str, i32)| borrowed_edge_view(e)),
    {
        let owned = owned_edges(&edges);
        GraphDef { nodes: self.nodes, edges: owned }
    }

    /// The node names, in order.
    pub fn nodes(&self) -> (r: &Vec<String>)
        ensures
            r@.map_values(|s: String| s@) == self@.nodes,
    {
        &self.nodes
    }

    /// The edges, in order.
    pub fn edges(&self) -> (r: &Vec<(String, String, i32)>)
        ensures
            r@.map_values(|e: (String, String, i32)| edge_view(e)) == self@.edges,
    {
        &self.edges
    }

    /// Insertions of every node, in order, appended to `ops`.
    fn push_node_ops(&self, ops: &mut Vec<GraphOp>)
        ensures
            steps_of(final(ops)@) == steps_of(old(ops)@) + node_steps(self@.nodes),
    {
        let ghost start = steps_of(ops@);
        let mut i: usize = 0;
        while i < self.nodes.len()
            invariant
                i <= self.nodes@.len(),
                steps_of(ops@) == start + node_steps(self@.nodes.take(i as int)),
            decreases self.nodes.len() - i,
        {
            let ghost before = ops@;
            ops.push(GraphOp::InsertNode(self.nodes[i].clone()));
            proof {
                assert(steps_of(ops@) =~= steps_of(before) + seq![GraphStep::Node(self.nodes@[i as int]@)]);
                assert(node_steps(self@.nodes.take(i + 1)) =~= node_steps(self@.nodes.take(i as int))
                    + seq![GraphStep::Node(self.nodes@[i as int]@)]);
            }
            i += 1;
        }
        assert(self@.nodes.take(self.nodes@.len() as int) =~= self@.nodes);
    }

    /// The insertions that build the directed graph of this definition:
    /// every node, then every edge in its own direction.
    pub fn directed_graph(&self) -> (ops: Vec<GraphOp>)
        ensures
            steps_of(ops@) == directed_steps(self@),
    {
        let mut ops: Vec<GraphOp> = Vec::new();
        assert(steps_of(ops@) =~= Seq::<GraphStep>::empty());
        self.push_node_ops(&mut ops);
        let ghost start = steps_of(ops@);
        let mut i: usize = 0;
        while i < self.edges.len()
            invariant
                i <= self.edges@.len(),
                start == node_steps(self@.nodes),
                steps_of(ops@) == start + forward_edge_steps(self@.edges.take(i as int)),
            decreases self.edges.len() - i,
        {
            let ghost before = ops@;
            let e = &self.edges[i];
            ops.push(GraphOp::InsertEdge(e.0.clone(), e.1.clone(), e.2));
            proof {
                let ev = self@.edges[i as int];
                assert(ev == edge_view(self.edges@[i as int]));
                assert(steps_of(ops@) =~= steps_of(before) + seq![forward_step(ev)]);
                assert(forward_edge_steps(self@.edges.take(i + 1)) =~= forward_edge_steps(
                    self@.edges.take(i as int),
                ) + seq![forward_step(ev)]);
            }
            i += 1;
        }
        assert(self@.edges.take(self.edges@.len() as int) =~= self@.edges);
        ops
    }

    /// The insertions that build the undirected graph of this definition:
    /// every node, then every edge followed by its reverse with the same weight.
    pub fn undirected_graph(&self) -> (ops: Vec<GraphOp>)
        ensures
            steps_of(ops@) == undirected_steps(self@),
    {
        let mut ops: Vec<GraphOp> = Vec::new();
        assert(steps_of(ops@) =~= Seq::<GraphStep>::empty());
        self.push_node_ops(&mut ops);
        let ghost start = steps_of(ops@);
        let mut i: usize = 0;
        while i < self.edges.len()
            invariant
                i <= self.edges@.len(),
                start == node_steps(self@.nodes),
                steps_of(ops@) == start + both_ways_edge_steps(self@.edges.take(i as int)),
            decreases self.edges.len() - i,
        {
            let ghost before = ops@;
            let e = &self.edges[i];
            ops.push(GraphOp::InsertEdge(e.0.clone(), e.1.clone(), e.2));
            ops.push(GraphOp::InsertEdge(e.1.clone(), e.0.clone(), e.2));
            proof {
                let ev = self@.edges[i as int];
                assert(ev == edge_view(self.edges@[i as int]));
                assert(steps_of(ops@) =~= steps_of(before) + seq![
                    forward_step(ev),
                    backward_step(ev),
                ]);
                let prev = self@.edges.take(i as int);
                let next = self@.edges.take(i + 1);
                assert forall|k: int| 0 <= k < 2 * next.len() implies #[trigger] both_ways_edge_steps(next)[k]
                    == (both_ways_edge_steps(prev) + seq![forward_step(ev), backward_step(ev)])[k] by {
                    if k < 2 * prev.len() {
                        assert(k / 2 < prev.len());
                        assert(next[k / 2] == prev[k / 2]);
                    } else {
                        assert(k / 2 == i);
                    }
                }
                assert(both_ways_edge_steps(next) =~= both_ways_edge_steps(prev) + seq![
                    forward_step(ev),
                    backward_step(ev),
                ]);
            }
            i += 1;
        }
        assert(self@.edges.take(self.edges@.len() as int) =~= self@.edges);
        ops
    }

    /// Both construction sequences: the directed graph's and the undirected graph's.
    pub fn build(self) -> (r: (Vec<GraphOp>, Vec<GraphOp>))
        ensures
            steps_of(r.0@) == directed_steps(self@),
            steps_of(r.1@) == undirected_steps(self@),
    {
        (self.directed_graph(), self.undirected_graph())
    }
}

} // verus!
