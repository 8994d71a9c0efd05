//! The tree layout of an acyclic graph, in grid units: one unit is one column
//! to the right, or one weight step down.
//!
//! Each root is placed one column right of everything placed before it, at
//! height 1. A node's first neighbour is placed in the node's own column, each
//! further neighbour one column right of everything its predecessor placed,
//! and every neighbour sits below the node by the edge's weight, read as a
//! 16-bit unsigned number. A node reached twice is placed twice; the later
//! placement is the one that counts.

use vstd::prelude::*;
use crate::graph_index::IndexGraph;

verus! {

/// One placement of a node at a grid position.
#[derive(Debug, Clone, Copy, PartialEq, Eq, Structural)]
pub struct Placement {
    pub node: usize,
    pub x: u64,
    pub y: u64,
}

/// `a + b`, or `u64::MAX` where that does not fit.
pub open spec fn sat_add(a: u64, b: int) -> u64 {
    if a + b > u64::MAX {
        u64::MAX
    } else {
        (a + b) as u64
    }
}

/// How far below its parent an edge of weight `w` places a node.
pub open spec fn drop_of(w: i32) -> int {
    (w as u16) as int
}

/// The placements made from `node` (reached by an edge of weight `w`, with
/// its parent at height `y`, in column `x`) and the last column used, where
/// at most `fuel` further levels are descended.
pub open spec fn place_node(
    adj: Seq<Seq<(usize, i32)>>,
    node: usize,
    x: u64,
    y: u64,
    w: i32,
    fuel: nat,
) -> (Seq<Placement>, u64)
    decreases fuel, 0nat, 0nat,
{
    let ny = sat_add(y, drop_of(w));
    let here = seq![Placement { node, x, y: ny }];
    if fuel == 0 {
        (here, x)
    } else {
        let (rest, nx) = place_children(adj, adj[node as int], 0, x, ny, (fuel - 1) as nat);
        (here + rest, nx)
    }
}

/// The placements made from the neighbours `kids[i..]` of a node at height
/// `y`, the first of them (when `i == 0`) in column `x` and each later one
/// right of column `x`, and the last column used.
pub open spec fn place_children(
    adj: Seq<Seq<(usize, i32)>>,
    kids: Seq<(usize, i32)>,
    i: nat,
    x: u64,
    y: u64,
    fuel: nat,
) -> (Seq<Placement>, u64)
    decreases fuel, 1nat, kids.len() - i,
{
    if i >= kids.len() {
        (Seq::empty(), x)
    } else {
        let start = if i == 0 {
            x
        } else {
            sat_add(x, 1)
        };
        let (a, x1) = place_node(adj, kids[i as int].0, start, y, kids[i as int].1, fuel);
        let (b, x2) = place_children(adj, kids, i + 1, x1, y, fuel);
        (a + b, x2)
    }
}

/// The placements made from `roots[i..]`, each root one column right of the
/// last column used before it (`x`), at height 1.
pub open spec fn place_roots(
    adj: Seq<Seq<(usize, i32)>>,
    roots: Seq<usize>,
    i: nat,
    x: u64,
    fuel: nat,
) -> Seq<Placement>
    decreases roots.len() - i,
{
    if i >= roots.len() {
        Seq::empty()
    } else {
        let (a, x1) = place_node(adj, roots[i as int], sat_add(x, 1), 0, 1, fuel);
        a + place_roots(adj, roots, i + 1, x1, fuel)
    }
}

/// The tree layout of `adj` from `roots`: at most as many levels below a
/// root as the graph has nodes, which an acyclic graph never reaches.
pub open spec fn tree_layout_spec(adj: Seq<Seq<(usize, i32)>>, roots: Seq<usize>) -> Seq<
    Placement,
> {
    place_roots(adj, roots, 0, 0, adj.len())
}

/// Every root is a node of the graph.
pub open spec fn roots_wf(adj: Seq<Seq<(usize, i32)>>, roots: Seq<usize>) -> bool {
    forall|i: int| 0 <= i < roots.len() ==> #[trigger] roots[i] < adj.len()
}

impl IndexGraph {
    /// Places `node`, reached by an edge of weight `weight` from a parent at
    /// height `y`, in column `x`, then its neighbours below it, descending at
    /// most `fuel` further levels; appends the placements to `out` and returns
    /// the last column used.
    pub fn update_graphic_rec(
        &self,
        node: usize,
        x: u64,
        y: u64,
        weight: i32,
        fuel: usize,
        out: &mut Vec<Placement>,
    ) -> (last_x: u64)
        requires
            self.wf(),
            node < self@.len(),
        ensures
            final(out)@ == old(out)@ + place_node(self@, node, x, y, weight, fuel as nat).0,
            last_x == place_node(self@, node, x, y, weight, fuel as nat).1,
        decreases fuel,
    {
        let ghost adj = self@;
        let ghost entry = out@;
        let ny = y.saturating_add((weight as u16) as u64);
        out.push(Placement { node, x, y: ny });
        if fuel == 0 {
            return x;
        }
        let kids = self.neighbours(node);
        let ghost goal = place_children(adj, kids@, 0, x, ny, (fuel - 1) as nat);
        proof {
            assert(place_node(adj, node, x, y, weight, fuel as nat) == (
                seq![Placement { node, x, y: ny }] + goal.0,
                goal.1,
            ));
            assert(out@ == entry + seq![Placement { node, x, y: ny }]);
        }
        let ghost done = out@;
        let mut cur = x;
        let mut i: usize = 0;
        while i < kids.len()
            invariant
                self.wf(),
                adj == self@,
                0 < fuel,
                node < adj.len(),
                kids@ == adj[node as int],
                i <= kids.len(),
                i == 0 ==> cur == x,
                (out@ + place_children(adj, kids@, i as nat, cur, ny, (fuel - 1) as nat).0, place_children(
                    adj,
                    kids@,
                    i as nat,
                    cur,
                    ny,
                    (fuel - 1) as nat,
                ).1) == (done + goal.0, goal.1),
            decreases kids.len() - i,
        {
            let ghost before = out@;
            let ghost rest_i = place_children(adj, kids@, i as nat, cur, ny, (fuel - 1) as nat);
            let start = if i == 0 {
                cur
            } else {
                cur.saturating_add(1)
            };
            let (kid, w) = kids[i];
            proof {
                assert(kids@[i as int] == adj[node as int][i as int]);
                assert(kid < adj.len());
            }
            let next = self.update_graphic_rec(kid, start, ny, w, fuel - 1, out);
            proof {
                let rest_next = place_children(adj, kids@, (i + 1) as nat, next, ny, (fuel - 1) as nat);
                let a = place_node(adj, kid, start, ny, w, (fuel - 1) as nat);
                assert(rest_i == (a.0 + rest_next.0, rest_next.1));
                assert(out@ == before + a.0);
                assert(out@ + rest_next.0 =~= before + rest_i.0);
            }
            cur = next;
            i += 1;
        }
        proof {
            let r = place_children(adj, kids@, i as nat, cur, ny, (fuel - 1) as nat);
            assert(r.0 =~= Seq::<Placement>::empty());
            assert(out@ =~= out@ + r.0);
        }
        cur
    }

    /// The tree layout of this graph from `roots`, in placement order: each
    /// root one column right of everything placed before it, at height 1,
    /// with its descendants below it, at most as many levels deep as the
    /// graph has nodes.
    pub fn tree_layout(&self, roots: &Vec<usize>) -> (r: Vec<Placement>)
        requires
            self.wf(),
            roots_wf(self@, roots@),
        ensures
            r@ == tree_layout_spec(self@, roots@),
    {
        let ghost adj = self@;
        let n = self.len();
        let mut out: Vec<Placement> = Vec::new();
        let mut x: u64 = 0;
        let mut i: usize = 0;
        while i < roots.len()
            invariant
                self.wf(),
                adj == self@,
                n == adj.len(),
                roots_wf(adj, roots@),
                i <= roots.len(),
                out@ + place_roots(adj, roots@, i as nat, x, n as nat) == place_roots(
                    adj,
                    roots@,
                    0,
                    0,
                    n as nat,
                ),
            decreases roots.len() - i,
        {
            let ghost before = out@;
            let ghost rest_i = place_roots(adj, roots@, i as nat, x, n as nat);
            let root = roots[i];
            let start = x.saturating_add(1);
            let next = self.update_graphic_rec(root, start, 0, 1, n, &mut out);
            proof {
                let a = place_node(adj, root, start, 0, 1, n as nat);
                let rest_next = place_roots(adj, roots@, (i + 1) as nat, next, n as nat);
                assert(rest_i == a.0 + rest_next);
                assert(out@ + rest_next =~= before + rest_i);
            }
            x = next;
            i += 1;
        }
        proof {
            assert(place_roots(adj, roots@, i as nat, x, n as nat) =~= Seq::<Placement>::empty());
            assert(out@ =~= out@ + place_roots(adj, roots@, i as nat, x, n as nat));
        }
        out
    }
}

} // verus!
