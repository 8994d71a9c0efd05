use graph_editor::graph_index::IndexGraph;
use graph_editor::layout::Placement;

fn graph(names: &[&str], adj: &[&[(&str, i32)]]) -> IndexGraph {
    let nodes: Vec<String> = names.iter().map(|s| s.to_string()).collect();
    let lists: Vec<Vec<(String, i32)>> = adj
        .iter()
        .map(|l| l.iter().map(|(n, w)| (n.to_string(), *w)).collect())
        .collect();
    IndexGraph::from_names(&nodes, &lists).unwrap()
}

fn p(node: usize, x: u64, y: u64) -> Placement {
    Placement { node, x, y }
}

#[test]
fn starter_graph_tree_layout() {
    let g = graph(
        &["node 1", "node 2", "node 3", "node 4"],
        &[&[("node 2", 1), ("node 3", 2)], &[("node 4", 1)], &[], &[]],
    );
    assert_eq!(
        g.tree_layout(&vec![0]),
        vec![p(0, 1, 1), p(1, 1, 2), p(3, 1, 3), p(2, 2, 3)]
    );
}

#[test]
fn each_root_starts_right_of_the_last() {
    let g = graph(&["a", "b", "c"], &[&[("c", 1)], &[], &[]]);
    assert_eq!(
        g.tree_layout(&vec![0, 1]),
        vec![p(0, 1, 1), p(2, 1, 2), p(1, 2, 1)]
    );
}

#[test]
fn siblings_move_one_column_right() {
    let g = graph(&["r", "a", "b", "c"], &[&[("a", 1), ("b", 1), ("c", 1)], &[], &[], &[]]);
    assert_eq!(
        g.tree_layout(&vec![0]),
        vec![p(0, 1, 1), p(1, 1, 2), p(2, 2, 2), p(3, 3, 2)]
    );
}

#[test]
fn weight_is_read_as_unsigned_16_bits() {
    let g = graph(&["a", "b", "c"], &[&[("b", -1)], &[("c", 65537)], &[]]);
    assert_eq!(
        g.tree_layout(&vec![0]),
        vec![p(0, 1, 1), p(1, 1, 1 + 65535), p(2, 1, 1 + 65535 + 1)]
    );
}

#[test]
fn a_node_reached_twice_is_placed_twice() {
    let g = graph(
        &["top", "left", "right", "bottom"],
        &[&[("left", 1), ("right", 1)], &[("bottom", 1)], &[("bottom", 1)], &[]],
    );
    assert_eq!(
        g.tree_layout(&vec![0]),
        vec![p(0, 1, 1), p(1, 1, 2), p(3, 1, 3), p(2, 2, 2), p(3, 2, 3)]
    );
}

#[test]
fn recursion_update_graphic_rec_returns_last_column() {
    let g = graph(&["r", "a", "b"], &[&[("a", 1), ("b", 1)], &[], &[]]);
    let mut out = Vec::new();
    let last = g.update_graphic_rec(0, 10, 0, 1, 3, &mut out);
    assert_eq!(last, 11);
    assert_eq!(out, vec![p(0, 10, 1), p(1, 10, 2), p(2, 11, 2)]);
}

#[test]
fn a_cycle_stops_at_the_depth_limit() {
    let g = graph(&["loop"], &[&[("loop", 1)]]);
    assert_eq!(g.tree_layout(&vec![0]), vec![p(0, 1, 1), p(0, 1, 2)]);
}

#[test]
fn no_roots_no_placements() {
    let g = graph(&["a"], &[&[]]);
    assert!(g.tree_layout(&Vec::new()).is_empty());
}

#[test]
fn every_placement_is_a_node_and_right_of_its_root() {
    let g = graph(
        &["a", "b", "c", "d", "e"],
        &[&[("b", 2), ("c", 1)], &[("d", 1), ("e", 3)], &[("e", 1)], &[], &[]],
    );
    let out = g.tree_layout(&vec![0, 2]);
    for q in &out {
        assert!(q.node < 5);
        assert!(q.x >= 1);
    }
}

#[test]
fn acyclic_layout_does_not_depend_on_depth_limit() {
    let g = graph(
        &["a", "b", "c", "d"],
        &[&[("b", 1), ("c", 2)], &[("d", 3)], &[("d", 1)], &[]],
    );
    let mut short = Vec::new();
    let mut long = Vec::new();
    let x1 = g.update_graphic_rec(0, 1, 0, 1, 4, &mut short);
    let x2 = g.update_graphic_rec(0, 1, 0, 1, 40, &mut long);
    assert_eq!(x1, x2);
    assert_eq!(short, long);
    assert_eq!(g.tree_layout(&vec![0]), short);
}

#[test]
fn tree_layout_places_exactly_the_reachable_nodes() {
    let g = graph(
        &["a", "b", "c", "d", "e", "f"],
        &[&[("b", 1)], &[("c", 1)], &[], &[("e", 1)], &[], &[]],
    );
    let mut placed: Vec<usize> = g.tree_layout(&vec![0]).iter().map(|q| q.node).collect();
    placed.sort();
    placed.dedup();
    assert_eq!(placed, vec![0, 1, 2]);
    let mut both: Vec<usize> = g.tree_layout(&vec![3, 0]).iter().map(|q| q.node).collect();
    both.sort();
    both.dedup();
    assert_eq!(both, vec![0, 1, 2, 3, 4]);
}
