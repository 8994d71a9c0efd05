use graph_editor::graph_index::{find_name, neighbours_are_nodes, IndexGraph};

fn names(v: &[&str]) -> Vec<String> {
    v.iter().map(|s| s.to_string()).collect()
}

#[test]
fn find_name_gives_first_position() {
    let n = names(&["a", "b", "a"]);
    assert_eq!(find_name(&n, &"a".to_string()), Some(0));
    assert_eq!(find_name(&n, &"b".to_string()), Some(1));
    assert_eq!(find_name(&n, &"z".to_string()), None);
    assert_eq!(find_name(&Vec::new(), &"a".to_string()), None);
}

#[test]
fn neighbours_that_are_nodes_pass() {
    let n = names(&["a", "b", "c"]);
    let adj = vec![names(&["b", "c"]), names(&["c"]), names(&[])];
    assert!(neighbours_are_nodes(&n, &adj));
}

#[test]
fn a_neighbour_that_is_no_node_fails() {
    let n = names(&["a", "b"]);
    let adj = vec![names(&["b"]), names(&["x"])];
    assert!(!neighbours_are_nodes(&n, &adj));
}

#[test]
fn empty_graph_passes() {
    assert!(neighbours_are_nodes(&Vec::new(), &Vec::new()));
}

#[test]
fn from_names_translates_to_positions() {
    let n = names(&["a", "b", "c"]);
    let adj = vec![
        vec![("b".to_string(), 1), ("c".to_string(), 2)],
        vec![("c".to_string(), -3)],
        vec![],
    ];
    let g = IndexGraph::from_names(&n, &adj).unwrap();
    assert_eq!(g.len(), 3);
    assert_eq!(g.neighbours(0), &vec![(1, 1), (2, 2)]);
    assert_eq!(g.neighbours(1), &vec![(2, -3)]);
    assert!(g.neighbours(2).is_empty());
}

#[test]
fn from_names_uses_first_occurrence() {
    let n = names(&["a", "b", "a"]);
    let adj = vec![vec![], vec![("a".to_string(), 4)], vec![]];
    let g = IndexGraph::from_names(&n, &adj).unwrap();
    assert_eq!(g.neighbours(1), &vec![(0, 4)]);
}

#[test]
fn from_names_refuses_unknown_neighbour() {
    let n = names(&["a"]);
    let adj = vec![vec![("b".to_string(), 1)]];
    assert!(IndexGraph::from_names(&n, &adj).is_none());
}

#[test]
fn check_and_translation_agree() {
    let n = names(&["a", "b"]);
    let good = vec![vec![("b".to_string(), 7)], vec![("a".to_string(), 0)]];
    let bad = vec![vec![("b".to_string(), 7)], vec![("q".to_string(), 0)]];
    for adj in [good, bad] {
        let plain: Vec<Vec<String>> =
            adj.iter().map(|l| l.iter().map(|p| p.0.clone()).collect()).collect();
        assert_eq!(
            neighbours_are_nodes(&n, &plain),
            IndexGraph::from_names(&n, &adj).is_some()
        );
    }
}

fn weighted(adj: &[&[(&str, i32)]]) -> Vec<Vec<(String, i32)>> {
    adj.iter().map(|l| l.iter().map(|(n, w)| (n.to_string(), *w)).collect()).collect()
}

#[test]
fn connection_counts_both_directions() {
    let n = names(&["a", "b", "c"]);
    let g = IndexGraph::from_names(
        &n,
        &weighted(&[&[("b", 3), ("c", 1), ("b", 5)], &[("a", 4)], &[]]),
    )
    .unwrap();
    assert_eq!(g.connection(0, 1), (3, 12));
    assert_eq!(g.connection(1, 0), (3, 12));
    assert_eq!(g.connection(0, 2), (1, 1));
    assert_eq!(g.connection(1, 2), (0, 0));
}

#[test]
fn mean_connection_weight_rounds_toward_zero() {
    let n = names(&["a", "b", "c"]);
    let g = IndexGraph::from_names(
        &n,
        &weighted(&[&[("b", 3), ("c", -7)], &[("a", 4)], &[("a", 0)]]),
    )
    .unwrap();
    assert_eq!(g.mean_connection_weight(0, 1), Some(3));
    assert_eq!(g.mean_connection_weight(0, 2), Some(-3));
    assert_eq!(g.mean_connection_weight(1, 2), None);
}

#[test]
fn self_loop_counts_twice() {
    let n = names(&["a"]);
    let g = IndexGraph::from_names(&n, &weighted(&[&[("a", 5)]])).unwrap();
    assert_eq!(g.connection(0, 0), (2, 10));
    assert_eq!(g.mean_connection_weight(0, 0), Some(5));
}
