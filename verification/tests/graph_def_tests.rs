use graph_editor::app_state::Project;
use graph_editor::graph_def::{GraphDef, GraphOp};

fn node(s: &str) -> GraphOp {
    GraphOp::InsertNode(s.to_string())
}

fn edge(a: &str, b: &str, w: i32) -> GraphOp {
    GraphOp::InsertEdge(a.to_string(), b.to_string(), w)
}

#[test]
fn new_definition_is_empty() {
    let d = GraphDef::new();
    assert!(d.nodes().is_empty());
    assert!(d.edges().is_empty());
    assert!(d.directed_graph().is_empty());
    assert!(d.undirected_graph().is_empty());
}

#[test]
fn default_definition_is_empty() {
    let d: GraphDef = Default::default();
    assert!(d.nodes().is_empty());
    assert!(d.edges().is_empty());
}

#[test]
fn with_nodes_copies_names_and_keeps_edges() {
    let d = GraphDef::new()
        .with_edges(vec![("a", "b", 3)])
        .with_nodes(vec!["a", "b", "c"]);
    assert_eq!(d.nodes(), &vec!["a".to_string(), "b".to_string(), "c".to_string()]);
    assert_eq!(d.edges(), &vec![("a".to_string(), "b".to_string(), 3)]);
}

#[test]
fn with_edges_copies_edges_and_keeps_nodes() {
    let d = GraphDef::new()
        .with_nodes(vec!["x"])
        .with_edges(vec![("x", "y", -4), ("y", "x", 7)]);
    assert_eq!(d.nodes(), &vec!["x".to_string()]);
    assert_eq!(
        d.edges(),
        &vec![("x".to_string(), "y".to_string(), -4), ("y".to_string(), "x".to_string(), 7)]
    );
}

#[test]
fn builders_commute() {
    let a = GraphDef::new().with_nodes(vec!["p", "q"]).with_edges(vec![("p", "q", 1)]);
    let b = GraphDef::new().with_edges(vec![("p", "q", 1)]).with_nodes(vec!["p", "q"]);
    assert_eq!(a.nodes(), b.nodes());
    assert_eq!(a.edges(), b.edges());
}

#[test]
fn later_with_nodes_replaces_earlier() {
    let d = GraphDef::new().with_nodes(vec!["a"]).with_nodes(vec!["b", "c"]);
    assert_eq!(d.nodes(), &vec!["b".to_string(), "c".to_string()]);
}

#[test]
fn directed_graph_inserts_nodes_then_edges() {
    let d = Project::<()>::starter_graph();
    assert_eq!(
        d.directed_graph(),
        vec![
            node("node 1"),
            node("node 2"),
            node("node 3"),
            node("node 4"),
            edge("node 1", "node 2", 1),
            edge("node 1", "node 3", 2),
            edge("node 2", "node 4", 1),
        ]
    );
}

#[test]
fn undirected_graph_inserts_each_edge_both_ways() {
    let d = Project::<()>::starter_graph();
    assert_eq!(
        d.undirected_graph(),
        vec![
            node("node 1"),
            node("node 2"),
            node("node 3"),
            node("node 4"),
            edge("node 1", "node 2", 1),
            edge("node 2", "node 1", 1),
            edge("node 1", "node 3", 2),
            edge("node 3", "node 1", 2),
            edge("node 2", "node 4", 1),
            edge("node 4", "node 2", 1),
        ]
    );
}

#[test]
fn build_gives_both_sequences() {
    let d = GraphDef::new().with_nodes(vec!["a", "b"]).with_edges(vec![("a", "b", 5)]);
    let directed = d.directed_graph();
    let undirected = d.undirected_graph();
    let (x, y) = d.build();
    assert_eq!(x, directed);
    assert_eq!(y, undirected);
}

#[test]
fn undirected_graph_is_symmetric() {
    let d = GraphDef::new()
        .with_nodes(vec!["a", "b", "c"])
        .with_edges(vec![("a", "b", 1), ("b", "c", -2), ("c", "c", 0)]);
    let ops = d.undirected_graph();
    for op in &ops {
        if let GraphOp::InsertEdge(a, b, w) = op {
            assert!(ops.contains(&GraphOp::InsertEdge(b.clone(), a.clone(), *w)));
        }
    }
    for op in &d.directed_graph() {
        assert!(ops.contains(op));
    }
}

#[test]
fn edges_to_undeclared_nodes_are_kept() {
    let d = GraphDef::new().with_nodes(vec!["a"]).with_edges(vec![("a", "ghost", 9)]);
    assert_eq!(d.directed_graph(), vec![node("a"), edge("a", "ghost", 9)]);
}

#[test]
fn declared_endpoints_are_inserted_before_their_edges() {
    let d = GraphDef::new()
        .with_nodes(vec!["a", "b", "c"])
        .with_edges(vec![("a", "b", 1), ("c", "a", 2)]);
    for ops in [d.directed_graph(), d.undirected_graph()] {
        for (k, op) in ops.iter().enumerate() {
            if let GraphOp::InsertEdge(a, b, _) = op {
                assert!(ops[..k].contains(&GraphOp::InsertNode(a.clone())));
                assert!(ops[..k].contains(&GraphOp::InsertNode(b.clone())));
            }
        }
    }
}

#[test]
fn rebuilding_twice_gives_the_same_constructions() {
    let p = Project::new(String::new(), ());
    let make = || GraphDef::new().with_nodes(vec!["a", "b"]).with_edges(vec![("a", "b", 3)]);
    assert_eq!(p.update_graph(Some(make())), p.update_graph(Some(make())));
}
