//! Properties of the library that span its functions.

use vstd::prelude::*;
use crate::graph_def::{
    GraphDefView,
    GraphStep,
    directed_steps,
    undirected_steps,
    node_steps,
    steps_of,
};
use crate::graph_index::{index_adjacency_wf, adjacency_closed, div_toward_zero};
use crate::layout::{Placement, place_node, place_children, place_roots, tree_layout_spec, sat_add, roots_wf};
use crate::app_state::{
    plan_of,
    AppView,
    Page,
    Project,
    after_new,
    after_close,
    after_save,
    after_save_as,
    save_write,
};

verus! {

// ---------------------------------------------------------------------------
// Building graphs from a definition
// ---------------------------------------------------------------------------

/// Both construction sequences start by inserting every node of the
/// definition, in order; the directed one then inserts each edge once and the
/// undirected one twice.
pub proof fn law_construction_shapes(d: GraphDefView)
    ensures
        directed_steps(d).take(d.nodes.len() as int) == node_steps(d.nodes),
        undirected_steps(d).take(d.nodes.len() as int) == node_steps(d.nodes),
        directed_steps(d).len() == d.nodes.len() + d.edges.len(),
        undirected_steps(d).len() == d.nodes.len() + 2 * d.edges.len(),
{
    assert(directed_steps(d).take(d.nodes.len() as int) =~= node_steps(d.nodes));
    assert(undirected_steps(d).take(d.nodes.len() as int) =~= node_steps(d.nodes));
}

/// The undirected graph is symmetric: whenever it inserts an edge from `a` to
/// `b`, it also inserts the edge from `b` to `a` with the same weight.
pub proof fn law_undirected_has_reverse_edges(d: GraphDefView, k: int)
    requires
        0 <= k < undirected_steps(d).len(),
    ensures
        undirected_steps(d)[k] matches GraphStep::Edge(a, b, w) ==> undirected_steps(d).contains(
            GraphStep::Edge(b, a, w),
        ),
{
    let s = undirected_steps(d);
    let n = d.nodes.len() as int;
    if k < n {
        assert(s[k] == GraphStep::Node(d.nodes[k]));
    } else {
        let j = k - n;
        let e = d.edges[j / 2];
        if j % 2 == 0 {
            assert(s[k] == GraphStep::Edge(e.0, e.1, e.2));
            assert(s[k + 1] == GraphStep::Edge(e.1, e.0, e.2));
        } else {
            assert((j - 1) / 2 == j / 2);
            assert(s[k] == GraphStep::Edge(e.1, e.0, e.2));
            assert(s[k - 1] == GraphStep::Edge(e.0, e.1, e.2));
        }
    }
}

/// Every insertion of the directed graph is also an insertion of the
/// undirected graph.
pub proof fn law_directed_within_undirected(d: GraphDefView)
    ensures
        forall|k: int|
            0 <= k < directed_steps(d).len() ==> undirected_steps(d).contains(
                #[trigger] directed_steps(d)[k],
            ),
{
    let ds = directed_steps(d);
    let us = undirected_steps(d);
    let n = d.nodes.len() as int;
    assert forall|k: int| 0 <= k < ds.len() implies us.contains(#[trigger] ds[k]) by {
        if k < n {
            assert(us[k] == ds[k]);
        } else {
            let j = k - n;
            assert((2 * j) / 2 == j);
            assert((2 * j) % 2 == 0);
            assert(us[n + 2 * j] == ds[k]);
        }
    }
}

/// Every edge of the definition joins two of its nodes.
pub open spec fn endpoints_declared(d: GraphDefView) -> bool {
    forall|k: int|
        0 <= k < d.edges.len() ==> d.nodes.contains((#[trigger] d.edges[k]).0) && d.nodes.contains(
            d.edges[k].1,
        )
}

/// Every edge insertion of `steps` names only nodes inserted before it.
pub open spec fn edges_follow_their_nodes(steps: Seq<GraphStep>) -> bool {
    forall|k: int|
        0 <= k < steps.len() ==> (#[trigger] steps[k] matches GraphStep::Edge(a, b, _) ==> {
            &&& steps.take(k).contains(GraphStep::Node(a))
            &&& steps.take(k).contains(GraphStep::Node(b))
        })
}

/// A node of the definition is inserted among the first `k` steps of a
/// construction, for any `k` past the node insertions.
proof fn node_inserted_early(d: GraphDefView, steps: Seq<GraphStep>, a: Seq<char>, k: int)
    requires
        steps.take(d.nodes.len() as int) == node_steps(d.nodes),
        d.nodes.len() <= k <= steps.len(),
        d.nodes.contains(a),
    ensures
        steps.take(k).contains(GraphStep::Node(a)),
{
    let i = choose|i: int| 0 <= i < d.nodes.len() && d.nodes[i] == a;
    assert(steps.take(d.nodes.len() as int)[i] == GraphStep::Node(a));
    assert(steps.take(k)[i] == steps[i]);
}

/// When every edge of a definition joins two of its nodes, both
/// constructions insert an edge only after inserting both of its ends, so
/// the graphs they build name no node they do not hold.
pub proof fn law_declared_endpoints_build_closed_graphs(d: GraphDefView)
    requires
        endpoints_declared(d),
    ensures
        edges_follow_their_nodes(directed_steps(d)),
        edges_follow_their_nodes(undirected_steps(d)),
{
    law_construction_shapes(d);
    let n = d.nodes.len() as int;
    let ds = directed_steps(d);
    let us = undirected_steps(d);
    assert forall|k: int| 0 <= k < ds.len() implies (#[trigger] ds[k] matches GraphStep::Edge(a, b, _) ==> {
        &&& ds.take(k).contains(GraphStep::Node(a))
        &&& ds.take(k).contains(GraphStep::Node(b))
    }) by {
        if k < n {
            assert(ds[k] == GraphStep::Node(d.nodes[k]));
        } else {
            let e = d.edges[k - n];
            assert(ds[k] == GraphStep::Edge(e.0, e.1, e.2));
            node_inserted_early(d, ds, e.0, k);
            node_inserted_early(d, ds, e.1, k);
        }
    }
    assert forall|k: int| 0 <= k < us.len() implies (#[trigger] us[k] matches GraphStep::Edge(a, b, _) ==> {
        &&& us.take(k).contains(GraphStep::Node(a))
        &&& us.take(k).contains(GraphStep::Node(b))
    }) by {
        if k < n {
            assert(us[k] == GraphStep::Node(d.nodes[k]));
        } else {
            let e = d.edges[(k - n) / 2];
            if (k - n) % 2 == 0 {
                assert(us[k] == GraphStep::Edge(e.0, e.1, e.2));
            } else {
                assert(us[k] == GraphStep::Edge(e.1, e.0, e.2));
            }
            node_inserted_early(d, us, e.0, k);
            node_inserted_early(d, us, e.1, k);
        }
    }
}

/// Rebuilding from the same parse result gives the same constructions.
pub proof fn law_rebuild_is_repeatable(
    parsed: Option<crate::graph_def::GraphDef>,
    r1: Option<(Vec<crate::graph_def::GraphOp>, Vec<crate::graph_def::GraphOp>)>,
    r2: Option<(Vec<crate::graph_def::GraphOp>, Vec<crate::graph_def::GraphOp>)>,
)
    requires
        plan_of(parsed, r1),
        plan_of(parsed, r2),
    ensures
        r1 is Some <==> r2 is Some,
        r1 matches Some(a) ==> r2 matches Some(b) && steps_of(a.0@) == steps_of(b.0@) && steps_of(
            a.1@,
        ) == steps_of(b.1@),
{
}


/// The directed construction inserts, after the nodes, each edge of the
/// definition in its own direction and in order: step `n + k` inserts edge
/// `k` from its first name to its second, with its weight.
pub proof fn law_directed_inserts_edges_as_written(d: GraphDefView, k: int)
    requires
        0 <= k < d.edges.len(),
    ensures
        directed_steps(d)[d.nodes.len() + k] == GraphStep::Edge(
            d.edges[k].0,
            d.edges[k].1,
            d.edges[k].2,
        ),
{
}

/// The undirected construction inserts each edge as the directed one does,
/// followed at once by its reverse: step `n + 2k` of the undirected
/// construction is step `n + k` of the directed one, and step `n + 2k + 1` is
/// the same edge with its ends swapped.
pub proof fn law_undirected_pairs_directed_edges(d: GraphDefView, k: int)
    requires
        0 <= k < d.edges.len(),
    ensures
        undirected_steps(d)[d.nodes.len() + 2 * k] == directed_steps(d)[d.nodes.len() + k],
        directed_steps(d)[d.nodes.len() + k] matches GraphStep::Edge(a, b, w)
            && undirected_steps(d)[d.nodes.len() + 2 * k + 1] == GraphStep::Edge(b, a, w),
{
    assert((2 * k) / 2 == k);
    assert((2 * k) % 2 == 0);
    assert((2 * k + 1) / 2 == k);
    assert((2 * k + 1) % 2 == 1);
}


/// The mean weight is the total weight divided by the number of edges,
/// rounded toward zero: `m * c` is the multiple of `c` nearest to `t` on the
/// side of zero, so that one edge's mean is its weight.
pub proof fn law_mean_is_truncated_quotient(t: int, c: int)
    requires
        c > 0,
    ensures
        t >= 0 ==> div_toward_zero(t, c) * c <= t < div_toward_zero(t, c) * c + c,
        t < 0 ==> div_toward_zero(t, c) * c - c < t <= div_toward_zero(t, c) * c,
        c == 1 ==> div_toward_zero(t, c) == t,
{
    let m = div_toward_zero(t, c);
    if c == 1 {
        assert(t / 1 == t);
        assert((-t) / 1 == -t);
    }
    if t >= 0 {
        let q = t / c;
        assert(q * c <= t < q * c + c) by (nonlinear_arith)
            requires
                c > 0,
                t >= 0,
                q == t / c,
        ;
    } else {
        let q = (-t) / c;
        assert(q * c <= -t < q * c + c) by (nonlinear_arith)
            requires
                c > 0,
                -t > 0,
                q == (-t) / c,
        ;
        assert(m == -q);
        assert(m * c == -(q * c)) by (nonlinear_arith)
            requires
                m == -q,
        ;
    }
}

// ---------------------------------------------------------------------------
// Checking a built graph
// ---------------------------------------------------------------------------

/// The check of a graph's neighbour names and the translation of its weighted
/// neighbour lists to positions succeed on the same graphs: the weights play
/// no part in whether a graph is consistent.
pub proof fn law_check_ignores_weights(
    nodes: Seq<Seq<char>>,
    names: Seq<Seq<Seq<char>>>,
    weighted: Seq<Seq<(Seq<char>, i32)>>,
)
    requires
        names.len() == weighted.len(),
        forall|i: int| 0 <= i < names.len() ==> (#[trigger] names[i]) == weighted[i].map_values(
            |p: (Seq<char>, i32)| p.0,
        ),
    ensures
        adjacency_closed(nodes, names) == adjacency_closed(
            nodes,
            weighted.map_values(|l: Seq<(Seq<char>, i32)>| l.map_values(|p: (Seq<char>, i32)| p.0)),
        ),
{
    let other = weighted.map_values(
        |l: Seq<(Seq<char>, i32)>| l.map_values(|p: (Seq<char>, i32)| p.0),
    );
    assert(names =~= other);
}

// ---------------------------------------------------------------------------
// Tree layout
// ---------------------------------------------------------------------------

/// Every placement of `ps` is in column `x` or to its right.
pub open spec fn all_right_of(ps: Seq<Placement>, x: u64) -> bool {
    forall|k: int| 0 <= k < ps.len() ==> (#[trigger] ps[k]).x >= x
}

/// Every placement of `ps` places a node of a graph with `n` nodes.
pub open spec fn all_nodes_below(ps: Seq<Placement>, n: nat) -> bool {
    forall|k: int| 0 <= k < ps.len() ==> (#[trigger] ps[k]).node < n
}

/// Laying out from a node never goes left: every placement is in the node's
/// column or right of it, and so is the last column used.
pub proof fn law_layout_moves_right(
    adj: Seq<Seq<(usize, i32)>>,
    node: usize,
    x: u64,
    y: u64,
    w: i32,
    fuel: nat,
)
    ensures
        place_node(adj, node, x, y, w, fuel).1 >= x,
        all_right_of(place_node(adj, node, x, y, w, fuel).0, x),
    decreases fuel, 0nat, 0nat,
{
    if fuel > 0 {
        let ny = sat_add(y, (w as u16) as int);
        children_move_right(adj, adj[node as int], 0, x, ny, (fuel - 1) as nat);
    }
}

/// Laying out the neighbours `kids[i..]` from column `x` never goes left of `x`.
pub proof fn children_move_right(
    adj: Seq<Seq<(usize, i32)>>,
    kids: Seq<(usize, i32)>,
    i: nat,
    x: u64,
    y: u64,
    fuel: nat,
)
    ensures
        place_children(adj, kids, i, x, y, fuel).1 >= x,
        all_right_of(place_children(adj, kids, i, x, y, fuel).0, x),
    decreases fuel, 1nat, kids.len() - i,
{
    if i < kids.len() {
        let start = if i == 0 {
            x
        } else {
            sat_add(x, 1)
        };
        let a = place_node(adj, kids[i as int].0, start, y, kids[i as int].1, fuel);
        law_layout_moves_right(adj, kids[i as int].0, start, y, kids[i as int].1, fuel);
        children_move_right(adj, kids, i + 1, a.1, y, fuel);
        let b = place_children(adj, kids, i + 1, a.1, y, fuel);
        assert forall|k: int| 0 <= k < (a.0 + b.0).len() implies (#[trigger] (a.0 + b.0)[k]).x >= x by {
            if k < a.0.len() {
                assert((a.0 + b.0)[k] == a.0[k]);
            } else {
                assert((a.0 + b.0)[k] == b.0[k - a.0.len()]);
            }
        }
    }
}

/// A node is placed where it is reached, one edge weight below its parent;
/// its first neighbour goes in the same column, one further weight below.
pub proof fn law_first_neighbour_below_in_same_column(
    adj: Seq<Seq<(usize, i32)>>,
    node: usize,
    x: u64,
    y: u64,
    w: i32,
    fuel: nat,
)
    requires
        fuel > 0,
        adj[node as int].len() > 0,
    ensures
        place_node(adj, node, x, y, w, fuel).0[0] == (Placement {
            node,
            x,
            y: sat_add(y, (w as u16) as int),
        }),
        place_node(adj, node, x, y, w, fuel).0[1] == (Placement {
            node: adj[node as int][0].0,
            x,
            y: sat_add(sat_add(y, (w as u16) as int), (adj[node as int][0].1 as u16) as int),
        }),
{
    let ny = sat_add(y, (w as u16) as int);
    let kids = adj[node as int];
    let a = place_node(adj, kids[0].0, x, ny, kids[0].1, (fuel - 1) as nat);
    let b = place_children(adj, kids, 1, a.1, ny, (fuel - 1) as nat);
    assert(place_children(adj, kids, 0, x, ny, (fuel - 1) as nat).0 == a.0 + b.0);
    assert(a.0[0] == Placement { node: kids[0].0, x, y: sat_add(ny, (kids[0].1 as u16) as int) });
}

/// `c` is the largest column of the placements `ps`: none is right of it and
/// one is in it.
pub open spec fn last_column_is(ps: Seq<Placement>, c: u64) -> bool {
    &&& forall|k: int| 0 <= k < ps.len() ==> (#[trigger] ps[k]).x <= c
    &&& exists|k: int| 0 <= k < ps.len() && (#[trigger] ps[k]).x == c
}

/// Every placement in `ps` before position `split` is strictly left of every
/// placement from `split` on.
pub open spec fn left_part_strictly_left(ps: Seq<Placement>, split: int) -> bool {
    forall|j: int, k: int| 0 <= j < split <= k < ps.len() ==> (#[trigger] ps[j]).x < (#[trigger] ps[k]).x
}

/// The column returned from laying out a node is the largest column of any
/// placement made from it.
pub proof fn law_layout_returns_last_column(
    adj: Seq<Seq<(usize, i32)>>,
    node: usize,
    x: u64,
    y: u64,
    w: i32,
    fuel: nat,
)
    ensures
        last_column_is(place_node(adj, node, x, y, w, fuel).0, place_node(adj, node, x, y, w, fuel).1),
    decreases fuel, 0nat, 0nat,
{
    let ny = sat_add(y, (w as u16) as int);
    let here = seq![Placement { node, x, y: ny }];
    let r = place_node(adj, node, x, y, w, fuel);
    if fuel == 0 {
        assert(r.0 == here);
        assert(r.0[0].x == x);
    } else {
        let kids = adj[node as int];
        let rest = place_children(adj, kids, 0, x, ny, (fuel - 1) as nat);
        children_last_column(adj, kids, 0, x, ny, (fuel - 1) as nat);
        assert(r.0 == here + rest.0);
        assert(r.1 == rest.1);
        if kids.len() == 0 {
            assert(r.0[0].x == x);
        } else {
            let k0 = choose|k: int| 0 <= k < rest.0.len() && (#[trigger] rest.0[k]).x == rest.1;
            assert(r.0[k0 + 1] == rest.0[k0]);
        }
        assert forall|k: int| 0 <= k < r.0.len() implies (#[trigger] r.0[k]).x <= r.1 by {
            if k > 0 {
                assert(r.0[k] == rest.0[k - 1]);
            }
        }
    }
}

/// Laying out the neighbours `kids[i..]` from column `x` returns the largest
/// column used, which is `x` when there are none.
pub proof fn children_last_column(
    adj: Seq<Seq<(usize, i32)>>,
    kids: Seq<(usize, i32)>,
    i: nat,
    x: u64,
    y: u64,
    fuel: nat,
)
    ensures
        i < kids.len() ==> last_column_is(
            place_children(adj, kids, i, x, y, fuel).0,
            place_children(adj, kids, i, x, y, fuel).1,
        ),
        i >= kids.len() ==> place_children(adj, kids, i, x, y, fuel).0.len() == 0
            && place_children(adj, kids, i, x, y, fuel).1 == x,
        place_children(adj, kids, i, x, y, fuel).1 >= x,
    decreases fuel, 1nat, kids.len() - i,
{
    if i < kids.len() {
        let start = if i == 0 {
            x
        } else {
            sat_add(x, 1)
        };
        let a = place_node(adj, kids[i as int].0, start, y, kids[i as int].1, fuel);
        law_layout_returns_last_column(adj, kids[i as int].0, start, y, kids[i as int].1, fuel);
        law_layout_moves_right(adj, kids[i as int].0, start, y, kids[i as int].1, fuel);
        children_last_column(adj, kids, i + 1, a.1, y, fuel);
        let b = place_children(adj, kids, i + 1, a.1, y, fuel);
        let ps = a.0 + b.0;
        assert(place_children(adj, kids, i, x, y, fuel) == (ps, b.1));
        assert forall|k: int| 0 <= k < ps.len() implies (#[trigger] ps[k]).x <= b.1 by {
            if k < a.0.len() {
                assert(ps[k] == a.0[k]);
            } else {
                assert(ps[k] == b.0[k - a.0.len()]);
            }
        }
        if i + 1 < kids.len() {
            let k0 = choose|k: int| 0 <= k < b.0.len() && (#[trigger] b.0[k]).x == b.1;
            assert(ps[k0 + a.0.len()] == b.0[k0]);
        } else {
            let k0 = choose|k: int| 0 <= k < a.0.len() && (#[trigger] a.0[k]).x == a.1;
            assert(ps[k0] == a.0[k0]);
        }
    }
}

/// Laying out the neighbours `kids[i..]` with `i > 0` from column `x` places
/// everything strictly right of `x`, unless `x` is the last column there is.
proof fn later_children_move_right(
    adj: Seq<Seq<(usize, i32)>>,
    kids: Seq<(usize, i32)>,
    i: nat,
    x: u64,
    y: u64,
    fuel: nat,
)
    requires
        i > 0,
    ensures
        all_right_of(place_children(adj, kids, i, x, y, fuel).0, sat_add(x, 1)),
{
    if i < kids.len() {
        let start = sat_add(x, 1);
        let a = place_node(adj, kids[i as int].0, start, y, kids[i as int].1, fuel);
        law_layout_moves_right(adj, kids[i as int].0, start, y, kids[i as int].1, fuel);
        children_move_right(adj, kids, i + 1, a.1, y, fuel);
        let b = place_children(adj, kids, i + 1, a.1, y, fuel);
        let ps = a.0 + b.0;
        assert forall|k: int| 0 <= k < ps.len() implies (#[trigger] ps[k]).x >= start by {
            if k < a.0.len() {
                assert(ps[k] == a.0[k]);
            } else {
                assert(ps[k] == b.0[k - a.0.len()]);
            }
        }
    }
}

/// Siblings are laid out side by side: the placements made from neighbour
/// `i` come first, and every later sibling's placement is strictly right of
/// every one of them (unless they already reach the last column there is).
pub proof fn law_siblings_side_by_side(
    adj: Seq<Seq<(usize, i32)>>,
    kids: Seq<(usize, i32)>,
    i: nat,
    x: u64,
    y: u64,
    fuel: nat,
)
    requires
        i < kids.len(),
    ensures
        ({
            let ps = place_children(adj, kids, i, x, y, fuel).0;
            let start = if i == 0 {
                x
            } else {
                sat_add(x, 1)
            };
            let a = place_node(adj, kids[i as int].0, start, y, kids[i as int].1, fuel);
            &&& ps.take(a.0.len() as int) == a.0
            &&& a.1 < u64::MAX ==> left_part_strictly_left(ps, a.0.len() as int)
        }),
{
    let start = if i == 0 {
        x
    } else {
        sat_add(x, 1)
    };
    let a = place_node(adj, kids[i as int].0, start, y, kids[i as int].1, fuel);
    law_layout_returns_last_column(adj, kids[i as int].0, start, y, kids[i as int].1, fuel);
    later_children_move_right(adj, kids, i + 1, a.1, y, fuel);
    let b = place_children(adj, kids, i + 1, a.1, y, fuel);
    let ps = a.0 + b.0;
    assert(ps.take(a.0.len() as int) =~= a.0);
    if a.1 < u64::MAX {
        assert forall|j: int, k: int| 0 <= j < a.0.len() <= k < ps.len() implies (#[trigger] ps[j]).x
            < (#[trigger] ps[k]).x by {
            assert(ps[j] == a.0[j]);
            assert(ps[k] == b.0[k - a.0.len()]);
        }
    }
}

/// Laying out the roots `roots[i..]` after column `x` places everything
/// right of `x`, from the column after it on.
proof fn roots_move_right(
    adj: Seq<Seq<(usize, i32)>>,
    roots: Seq<usize>,
    i: nat,
    x: u64,
    fuel: nat,
)
    ensures
        all_right_of(place_roots(adj, roots, i, x, fuel), sat_add(x, 1)),
    decreases roots.len() - i,
{
    if i < roots.len() {
        let start = sat_add(x, 1);
        let a = place_node(adj, roots[i as int], start, 0, 1, fuel);
        law_layout_moves_right(adj, roots[i as int], start, 0, 1, fuel);
        roots_move_right(adj, roots, i + 1, a.1, fuel);
        let b = place_roots(adj, roots, i + 1, a.1, fuel);
        let ps = a.0 + b;
        assert forall|k: int| 0 <= k < ps.len() implies (#[trigger] ps[k]).x >= start by {
            if k < a.0.len() {
                assert(ps[k] == a.0[k]);
            } else {
                assert(ps[k] == b[k - a.0.len()]);
            }
        }
    }
}

/// Roots are laid out side by side: the placements made from root `i` come
/// first, and every placement made from a later root is strictly right of
/// every one of them (unless they already reach the last column there is).
pub proof fn law_roots_side_by_side(
    adj: Seq<Seq<(usize, i32)>>,
    roots: Seq<usize>,
    i: nat,
    x: u64,
    fuel: nat,
)
    requires
        i < roots.len(),
    ensures
        ({
            let ps = place_roots(adj, roots, i, x, fuel);
            let a = place_node(adj, roots[i as int], sat_add(x, 1), 0, 1, fuel);
            &&& ps.take(a.0.len() as int) == a.0
            &&& a.1 < u64::MAX ==> left_part_strictly_left(ps, a.0.len() as int)
        }),
{
    let a = place_node(adj, roots[i as int], sat_add(x, 1), 0, 1, fuel);
    law_layout_returns_last_column(adj, roots[i as int], sat_add(x, 1), 0, 1, fuel);
    roots_move_right(adj, roots, i + 1, a.1, fuel);
    let b = place_roots(adj, roots, i + 1, a.1, fuel);
    let ps = a.0 + b;
    assert(ps.take(a.0.len() as int) =~= a.0);
    if a.1 < u64::MAX {
        assert forall|j: int, k: int| 0 <= j < a.0.len() <= k < ps.len() implies (#[trigger] ps[j]).x
            < (#[trigger] ps[k]).x by {
            assert(ps[j] == a.0[j]);
            assert(ps[k] == b[k - a.0.len()]);
        }
    }
}

/// In a graph whose neighbours are all nodes, laying out from a node places
/// only nodes of the graph.
pub proof fn law_layout_places_nodes(
    adj: Seq<Seq<(usize, i32)>>,
    node: usize,
    x: u64,
    y: u64,
    w: i32,
    fuel: nat,
)
    requires
        index_adjacency_wf(adj),
        node < adj.len(),
    ensures
        all_nodes_below(place_node(adj, node, x, y, w, fuel).0, adj.len()),
    decreases fuel, 0nat, 0nat,
{
    if fuel > 0 {
        let ny = sat_add(y, (w as u16) as int);
        let rest = place_children(adj, adj[node as int], 0, x, ny, (fuel - 1) as nat);
        children_place_nodes(adj, adj[node as int], 0, x, ny, (fuel - 1) as nat);
        let here = seq![Placement { node, x, y: ny }];
        assert forall|k: int| 0 <= k < (here + rest.0).len() implies (#[trigger] (here + rest.0)[k]).node
            < adj.len() by {
            if k >= 1 {
                assert((here + rest.0)[k] == rest.0[k - 1]);
            }
        }
    }
}

/// Laying out neighbours that are all nodes places only nodes.
pub proof fn children_place_nodes(
    adj: Seq<Seq<(usize, i32)>>,
    kids: Seq<(usize, i32)>,
    i: nat,
    x: u64,
    y: u64,
    fuel: nat,
)
    requires
        index_adjacency_wf(adj),
        forall|j: int| 0 <= j < kids.len() ==> (#[trigger] kids[j]).0 < adj.len(),
    ensures
        all_nodes_below(place_children(adj, kids, i, x, y, fuel).0, adj.len()),
    decreases fuel, 1nat, kids.len() - i,
{
    if i < kids.len() {
        let start = if i == 0 {
            x
        } else {
            sat_add(x, 1)
        };
        let a = place_node(adj, kids[i as int].0, start, y, kids[i as int].1, fuel);
        law_layout_places_nodes(adj, kids[i as int].0, start, y, kids[i as int].1, fuel);
        children_place_nodes(adj, kids, i + 1, a.1, y, fuel);
        let b = place_children(adj, kids, i + 1, a.1, y, fuel);
        assert forall|k: int| 0 <= k < (a.0 + b.0).len() implies (#[trigger] (a.0 + b.0)[k]).node
            < adj.len() by {
            if k < a.0.len() {
                assert((a.0 + b.0)[k] == a.0[k]);
            } else {
                assert((a.0 + b.0)[k] == b.0[k - a.0.len()]);
            }
        }
    }
}

/// The tree layout of a graph whose neighbours and roots are all nodes
/// places only nodes of the graph.
pub proof fn law_tree_layout_places_nodes(adj: Seq<Seq<(usize, i32)>>, roots: Seq<usize>)
    requires
        index_adjacency_wf(adj),
        roots_wf(adj, roots),
    ensures
        all_nodes_below(tree_layout_spec(adj, roots), adj.len()),
{
    roots_place_nodes(adj, roots, 0, 0, adj.len());
}

/// Laying out roots that are all nodes places only nodes.
pub proof fn roots_place_nodes(
    adj: Seq<Seq<(usize, i32)>>,
    roots: Seq<usize>,
    i: nat,
    x: u64,
    fuel: nat,
)
    requires
        index_adjacency_wf(adj),
        roots_wf(adj, roots),
    ensures
        all_nodes_below(place_roots(adj, roots, i, x, fuel), adj.len()),
    decreases roots.len() - i,
{
    if i < roots.len() {
        let a = place_node(adj, roots[i as int], sat_add(x, 1), 0, 1, fuel);
        law_layout_places_nodes(adj, roots[i as int], sat_add(x, 1), 0, 1, fuel);
        roots_place_nodes(adj, roots, i + 1, a.1, fuel);
        let b = place_roots(adj, roots, i + 1, a.1, fuel);
        assert forall|k: int| 0 <= k < (a.0 + b).len() implies (#[trigger] (a.0 + b)[k]).node
            < adj.len() by {
            if k < a.0.len() {
                assert((a.0 + b)[k] == a.0[k]);
            } else {
                assert((a.0 + b)[k] == b[k - a.0.len()]);
            }
        }
    }
}

/// `rank` ranks the nodes of `adj` so that every edge leads to a node of
/// smaller rank, every rank below the number of nodes: a graph has such a
/// ranking exactly when it is acyclic.
pub open spec fn is_ranking(adj: Seq<Seq<(usize, i32)>>, rank: Seq<nat>) -> bool {
    &&& rank.len() == adj.len()
    &&& forall|v: int| 0 <= v < rank.len() ==> #[trigger] rank[v] < adj.len()
    &&& forall|i: int, j: int|
        0 <= i < adj.len() && 0 <= j < adj[i].len() ==> {
            &&& (#[trigger] adj[i][j]).0 < adj.len()
            &&& rank[adj[i][j].0 as int] < rank[i]
        }
}

/// On an acyclic graph, the depth allowance does not matter once it reaches
/// the start node's rank: the layout is the one of unbounded descent.
pub proof fn law_acyclic_layout_depth_irrelevant(
    adj: Seq<Seq<(usize, i32)>>,
    rank: Seq<nat>,
    node: usize,
    x: u64,
    y: u64,
    w: i32,
    f1: nat,
    f2: nat,
)
    requires
        is_ranking(adj, rank),
        node < adj.len(),
        f1 >= rank[node as int],
        f2 >= rank[node as int],
    ensures
        place_node(adj, node, x, y, w, f1) == place_node(adj, node, x, y, w, f2),
    decreases rank[node as int], 1nat, 0nat,
{
    let ny = sat_add(y, (w as u16) as int);
    let here = seq![Placement { node, x, y: ny }];
    let kids = adj[node as int];
    if rank[node as int] == 0 {
        assert(kids.len() == 0) by {
            if kids.len() > 0 {
                let c = kids[0];
                assert(adj[node as int][0] == c);
                assert(rank[c.0 as int] < rank[node as int]);
            }
        }
        if f1 > 0 {
            assert(place_children(adj, kids, 0, x, ny, (f1 - 1) as nat).0 =~= Seq::<Placement>::empty());
            assert(here + Seq::<Placement>::empty() =~= here);
        }
        if f2 > 0 {
            assert(place_children(adj, kids, 0, x, ny, (f2 - 1) as nat).0 =~= Seq::<Placement>::empty());
            assert(here + Seq::<Placement>::empty() =~= here);
        }
    } else {
        children_depth_irrelevant(
            adj,
            rank,
            kids,
            rank[node as int],
            0,
            x,
            ny,
            (f1 - 1) as nat,
            (f2 - 1) as nat,
        );
    }
}

/// Laying out neighbours of rank below `bound` does not depend on the depth
/// allowance once it reaches `bound - 1`.
pub proof fn children_depth_irrelevant(
    adj: Seq<Seq<(usize, i32)>>,
    rank: Seq<nat>,
    kids: Seq<(usize, i32)>,
    bound: nat,
    i: nat,
    x: u64,
    y: u64,
    f1: nat,
    f2: nat,
)
    requires
        is_ranking(adj, rank),
        bound >= 1,
        forall|j: int|
            0 <= j < kids.len() ==> (#[trigger] kids[j]).0 < adj.len() && rank[kids[j].0 as int]
                < bound,
        f1 >= bound - 1,
        f2 >= bound - 1,
    ensures
        place_children(adj, kids, i, x, y, f1) == place_children(adj, kids, i, x, y, f2),
    decreases bound, 0nat, kids.len() - i,
{
    if i < kids.len() {
        let start = if i == 0 {
            x
        } else {
            sat_add(x, 1)
        };
        let k = kids[i as int];
        law_acyclic_layout_depth_irrelevant(adj, rank, k.0, start, y, k.1, f1, f2);
        let a = place_node(adj, k.0, start, y, k.1, f1);
        children_depth_irrelevant(adj, rank, kids, bound, i + 1, a.1, y, f1, f2);
    }
}

/// On an acyclic graph, the tree layout is the one of unbounded descent:
/// laying out the roots with any larger depth allowance gives the same
/// placements.
pub proof fn law_acyclic_tree_layout_unbounded(
    adj: Seq<Seq<(usize, i32)>>,
    rank: Seq<nat>,
    roots: Seq<usize>,
    fuel: nat,
)
    requires
        is_ranking(adj, rank),
        roots_wf(adj, roots),
        fuel >= adj.len(),
    ensures
        tree_layout_spec(adj, roots) == place_roots(adj, roots, 0, 0, fuel),
{
    roots_depth_irrelevant(adj, rank, roots, 0, 0, adj.len(), fuel);
}

/// Laying out roots of an acyclic graph does not depend on a depth allowance
/// that reaches the number of nodes.
pub proof fn roots_depth_irrelevant(
    adj: Seq<Seq<(usize, i32)>>,
    rank: Seq<nat>,
    roots: Seq<usize>,
    i: nat,
    x: u64,
    f1: nat,
    f2: nat,
)
    requires
        is_ranking(adj, rank),
        roots_wf(adj, roots),
        f1 >= adj.len(),
        f2 >= adj.len(),
    ensures
        place_roots(adj, roots, i, x, f1) == place_roots(adj, roots, i, x, f2),
    decreases roots.len() - i,
{
    if i < roots.len() {
        let r = roots[i as int];
        assert(rank[r as int] < adj.len());
        law_acyclic_layout_depth_irrelevant(adj, rank, r, sat_add(x, 1), 0, 1, f1, f2);
        let a = place_node(adj, r, sat_add(x, 1), 0, 1, f1);
        roots_depth_irrelevant(adj, rank, roots, i + 1, a.1, f1, f2);
    }
}

/// Node `p` is placed somewhere in `ps`.
pub open spec fn placed(ps: Seq<Placement>, p: usize) -> bool {
    exists|k: int| 0 <= k < ps.len() && (#[trigger] ps[k]).node == p
}

/// `b` can be reached from `a` by following at most `d` edges.
pub open spec fn reach_within(adj: Seq<Seq<(usize, i32)>>, a: usize, b: usize, d: nat) -> bool
    decreases d, 0nat, 0nat,
{
    a == b || (d > 0 && kids_reach_within(adj, adj[a as int], 0, b, (d - 1) as nat))
}

/// `b` can be reached by following at most `d` edges from one of `kids[i..]`.
pub open spec fn kids_reach_within(
    adj: Seq<Seq<(usize, i32)>>,
    kids: Seq<(usize, i32)>,
    i: nat,
    b: usize,
    d: nat,
) -> bool
    decreases d, 1nat, kids.len() - i,
{
    if i >= kids.len() {
        false
    } else {
        reach_within(adj, kids[i as int].0, b, d) || kids_reach_within(adj, kids, i + 1, b, d)
    }
}

/// `b` can be reached from `a` by following edges.
pub open spec fn reachable(adj: Seq<Seq<(usize, i32)>>, a: usize, b: usize) -> bool {
    exists|d: nat| #[trigger] reach_within(adj, a, b, d)
}

/// A node is placed in a concatenation exactly when it is placed in one part.
proof fn placed_concat(s1: Seq<Placement>, s2: Seq<Placement>, p: usize)
    ensures
        placed(s1 + s2, p) <==> placed(s1, p) || placed(s2, p),
{
    let s = s1 + s2;
    if placed(s, p) {
        let k = choose|k: int| 0 <= k < s.len() && (#[trigger] s[k]).node == p;
        if k < s1.len() {
            assert(s1[k] == s[k]);
        } else {
            assert(s2[k - s1.len()] == s[k]);
        }
    }
    if placed(s1, p) {
        let k = choose|k: int| 0 <= k < s1.len() && (#[trigger] s1[k]).node == p;
        assert(s[k] == s1[k]);
    }
    if placed(s2, p) {
        let k = choose|k: int| 0 <= k < s2.len() && (#[trigger] s2[k]).node == p;
        assert(s[k + s1.len()] == s2[k]);
    }
}

/// Laying out from a node with depth allowance `fuel` places exactly the
/// nodes reachable from it by at most `fuel` edges.
pub proof fn law_layout_places_reach_within(
    adj: Seq<Seq<(usize, i32)>>,
    node: usize,
    x: u64,
    y: u64,
    w: i32,
    fuel: nat,
    p: usize,
)
    ensures
        placed(place_node(adj, node, x, y, w, fuel).0, p) <==> reach_within(adj, node, p, fuel),
    decreases fuel, 0nat, 0nat,
{
    let ny = sat_add(y, (w as u16) as int);
    let here = seq![Placement { node, x, y: ny }];
    assert(placed(here, p) <==> node == p) by {
        if node == p {
            assert(here[0].node == p);
        }
    }
    if fuel == 0 {
        assert(place_node(adj, node, x, y, w, fuel).0 == here);
    } else {
        let rest = place_children(adj, adj[node as int], 0, x, ny, (fuel - 1) as nat);
        children_place_reach_within(adj, adj[node as int], 0, x, ny, (fuel - 1) as nat, p);
        placed_concat(here, rest.0, p);
    }
}

/// Laying out the neighbours `kids[i..]` places exactly the nodes reachable
/// from one of them by at most `fuel` edges.
pub proof fn children_place_reach_within(
    adj: Seq<Seq<(usize, i32)>>,
    kids: Seq<(usize, i32)>,
    i: nat,
    x: u64,
    y: u64,
    fuel: nat,
    p: usize,
)
    ensures
        placed(place_children(adj, kids, i, x, y, fuel).0, p) <==> kids_reach_within(
            adj,
            kids,
            i,
            p,
            fuel,
        ),
    decreases fuel, 1nat, kids.len() - i,
{
    if i < kids.len() {
        let start = if i == 0 {
            x
        } else {
            sat_add(x, 1)
        };
        let a = place_node(adj, kids[i as int].0, start, y, kids[i as int].1, fuel);
        law_layout_places_reach_within(adj, kids[i as int].0, start, y, kids[i as int].1, fuel, p);
        children_place_reach_within(adj, kids, i + 1, a.1, y, fuel, p);
        let b = place_children(adj, kids, i + 1, a.1, y, fuel);
        placed_concat(a.0, b.0, p);
    } else {
        assert(place_children(adj, kids, i, x, y, fuel).0.len() == 0);
    }
}

/// Reaching within `d` edges is reaching within any larger number of edges.
pub proof fn reach_within_monotone(
    adj: Seq<Seq<(usize, i32)>>,
    a: usize,
    b: usize,
    d: nat,
    e: nat,
)
    requires
        reach_within(adj, a, b, d),
        d <= e,
    ensures
        reach_within(adj, a, b, e),
    decreases d, 0nat, 0nat,
{
    if a != b {
        kids_reach_within_monotone(adj, adj[a as int], 0, b, (d - 1) as nat, (e - 1) as nat);
    }
}

/// Reaching from `kids[i..]` within `d` edges is reaching within more.
pub proof fn kids_reach_within_monotone(
    adj: Seq<Seq<(usize, i32)>>,
    kids: Seq<(usize, i32)>,
    i: nat,
    b: usize,
    d: nat,
    e: nat,
)
    requires
        kids_reach_within(adj, kids, i, b, d),
        d <= e,
    ensures
        kids_reach_within(adj, kids, i, b, e),
    decreases d, 1nat, kids.len() - i,
{
    if i < kids.len() {
        if reach_within(adj, kids[i as int].0, b, d) {
            reach_within_monotone(adj, kids[i as int].0, b, d, e);
        } else {
            kids_reach_within_monotone(adj, kids, i + 1, b, d, e);
        }
    }
}

/// In an acyclic graph, what can be reached from a node can be reached by at
/// most as many edges as the node's rank.
pub proof fn reach_within_rank(
    adj: Seq<Seq<(usize, i32)>>,
    rank: Seq<nat>,
    a: usize,
    b: usize,
    d: nat,
)
    requires
        is_ranking(adj, rank),
        a < adj.len(),
        reach_within(adj, a, b, d),
    ensures
        reach_within(adj, a, b, rank[a as int]),
    decreases d, 0nat, 0nat,
{
    if a != b {
        let kids = adj[a as int];
        assert forall|j: int| 0 <= j < kids.len() implies (#[trigger] kids[j]).0 < adj.len()
            && rank[kids[j].0 as int] < rank[a as int] by {
            assert(adj[a as int][j] == kids[j]);
        }
        kids_reach_within_rank(adj, rank, kids, rank[a as int], 0, b, (d - 1) as nat);
    }
}

/// In an acyclic graph, what can be reached from neighbours of rank below
/// `bound` can be reached by at most `bound - 1` edges.
pub proof fn kids_reach_within_rank(
    adj: Seq<Seq<(usize, i32)>>,
    rank: Seq<nat>,
    kids: Seq<(usize, i32)>,
    bound: nat,
    i: nat,
    b: usize,
    d: nat,
)
    requires
        is_ranking(adj, rank),
        forall|j: int|
            0 <= j < kids.len() ==> (#[trigger] kids[j]).0 < adj.len() && rank[kids[j].0 as int]
                < bound,
        kids_reach_within(adj, kids, i, b, d),
    ensures
        bound >= 1,
        kids_reach_within(adj, kids, i, b, (bound - 1) as nat),
    decreases d, 1nat, kids.len() - i,
{
    if i < kids.len() {
        let k = kids[i as int].0;
        if reach_within(adj, k, b, d) {
            reach_within_rank(adj, rank, k, b, d);
            reach_within_monotone(adj, k, b, rank[k as int], (bound - 1) as nat);
        } else {
            kids_reach_within_rank(adj, rank, kids, bound, i + 1, b, d);
        }
    }
}

/// On an acyclic graph, laying out from a node with a depth allowance that
/// reaches its rank places exactly the nodes reachable from it.
pub proof fn law_acyclic_layout_places_reachable(
    adj: Seq<Seq<(usize, i32)>>,
    rank: Seq<nat>,
    node: usize,
    x: u64,
    y: u64,
    w: i32,
    fuel: nat,
    p: usize,
)
    requires
        is_ranking(adj, rank),
        node < adj.len(),
        fuel >= rank[node as int],
    ensures
        placed(place_node(adj, node, x, y, w, fuel).0, p) <==> reachable(adj, node, p),
{
    law_layout_places_reach_within(adj, node, x, y, w, fuel, p);
    if reachable(adj, node, p) {
        let d = choose|d: nat| #[trigger] reach_within(adj, node, p, d);
        reach_within_rank(adj, rank, node, p, d);
        reach_within_monotone(adj, node, p, rank[node as int], fuel);
    }
    if reach_within(adj, node, p, fuel) {
        assert(reach_within(adj, node, p, fuel));
    }
}

/// Laying out the roots `roots[i..]` places exactly the nodes reachable from
/// one of them within the depth allowance.
pub proof fn roots_place_reach_within(
    adj: Seq<Seq<(usize, i32)>>,
    roots: Seq<usize>,
    i: nat,
    x: u64,
    fuel: nat,
    p: usize,
)
    ensures
        placed(place_roots(adj, roots, i, x, fuel), p) <==> exists|j: int|
            i <= j < roots.len() && #[trigger] reach_within(adj, roots[j], p, fuel),
    decreases roots.len() - i,
{
    if i < roots.len() {
        let a = place_node(adj, roots[i as int], sat_add(x, 1), 0, 1, fuel);
        law_layout_places_reach_within(adj, roots[i as int], sat_add(x, 1), 0, 1, fuel, p);
        roots_place_reach_within(adj, roots, i + 1, a.1, fuel, p);
        let b = place_roots(adj, roots, i + 1, a.1, fuel);
        placed_concat(a.0, b, p);
        if exists|j: int| i <= j < roots.len() && #[trigger] reach_within(adj, roots[j], p, fuel) {
            let j = choose|j: int| i <= j < roots.len() && #[trigger] reach_within(adj, roots[j], p, fuel);
            if j > i {
                assert(i + 1 <= j < roots.len() && reach_within(adj, roots[j], p, fuel));
            }
        }
        if reach_within(adj, roots[i as int], p, fuel) {
            assert(reach_within(adj, roots[i as int], p, fuel));
        }
    } else {
        assert(place_roots(adj, roots, i, x, fuel).len() == 0);
    }
}

/// On an acyclic graph, the tree layout places exactly the nodes reachable
/// from its roots.
pub proof fn law_acyclic_tree_layout_places_reachable(
    adj: Seq<Seq<(usize, i32)>>,
    rank: Seq<nat>,
    roots: Seq<usize>,
    p: usize,
)
    requires
        is_ranking(adj, rank),
        roots_wf(adj, roots),
    ensures
        placed(tree_layout_spec(adj, roots), p) <==> exists|j: int|
            0 <= j < roots.len() && #[trigger] reachable(adj, roots[j], p),
{
    let n = adj.len();
    roots_place_reach_within(adj, roots, 0, 0, n, p);
    if exists|j: int| 0 <= j < roots.len() && #[trigger] reachable(adj, roots[j], p) {
        let j = choose|j: int| 0 <= j < roots.len() && #[trigger] reachable(adj, roots[j], p);
        let r = roots[j];
        assert(r < n);
        let d = choose|d: nat| #[trigger] reach_within(adj, r, p, d);
        reach_within_rank(adj, rank, r, p, d);
        reach_within_monotone(adj, r, p, rank[r as int], n);
        assert(reach_within(adj, roots[j], p, n));
    }
    if exists|j: int| 0 <= j < roots.len() && #[trigger] reach_within(adj, roots[j], p, n) {
        let j = choose|j: int| 0 <= j < roots.len() && #[trigger] reach_within(adj, roots[j], p, n);
        assert(reachable(adj, roots[j], p));
    }
}

// ---------------------------------------------------------------------------
// The editor
// ---------------------------------------------------------------------------

/// Saving never changes the page, and neither does "save as".
pub proof fn law_save_keeps_page<S>(v: AppView<S>)
    ensures
        after_save(v).active == v.active,
        after_save(v).recent == v.recent,
        after_save_as(v).active == v.active,
        after_save_as(v).recent == v.recent,
{
}

/// Saving a project that has no file is "save as": it queues the save dialog
/// and writes nothing.
pub proof fn law_save_without_file_is_save_as<S>(v: AppView<S>, p: Project<S>)
    requires
        v.active == Page::Project(p),
        p.path is None,
    ensures
        after_save(v) == after_save_as(v),
        save_write(v) is None,
        after_save(v).modals.len() == v.modals.len() + 1,
{
}

/// Saving a project that has a file writes its text to that file and changes
/// nothing else.
pub proof fn law_save_with_file_writes_text<S>(v: AppView<S>, p: Project<S>, path: String)
    requires
        v.active == Page::Project(p),
        p.path == Some(path),
    ensures
        after_save(v) == v,
        save_write(v) == Some((path@, p.text@)),
{
}

/// With no page open, saving does nothing and writes nothing.
pub proof fn law_save_blank_is_noop<S>(v: AppView<S>)
    requires
        v.active is Blank,
    ensures
        after_save(v) == v,
        after_save_as(v) == v,
        save_write(v) is None,
{
}

/// Opening a project and then closing it leaves the editor as closing alone
/// would.
pub proof fn law_close_after_new<S>(v: AppView<S>, p: Project<S>)
    ensures
        after_close(after_new(v, p)) == after_close(v),
{
}

/// Opening a project shows it, whatever page was open before, and keeps the
/// recent files and the dialogs.
pub proof fn law_new_graph_opens_project<S>(v: AppView<S>, p: Project<S>)
    ensures
        after_new(v, p).active == Page::Project(p),
        after_new(v, p).recent == v.recent,
        after_new(v, p).modals == v.modals,
{
}

} // verus!
