//! The consistency check of a built graph (every neighbour is a node of the
//! graph) and the translation of a graph given by node names into one given by
//! node positions.

use vstd::prelude::*;

verus! {

/// The names of a list of strings.
pub open spec fn names_of(v: Seq<String>) -> Seq<Seq<char>> {
    v.map_values(|s: String| s@)
}

/// Every neighbour named in `adjacency` is one of `nodes`.
pub open spec fn adjacency_closed(nodes: Seq<Seq<char>>, adjacency: Seq<Seq<Seq<char>>>) -> bool {
    forall|i: int, j: int|
        0 <= i < adjacency.len() && 0 <= j < adjacency[i].len() ==> nodes.contains(
            #[trigger] adjacency[i][j],
        )
}

/// The names in a list of adjacency lists.
pub open spec fn adjacency_names(adjacency: Seq<Vec<String>>) -> Seq<Seq<Seq<char>>> {
    adjacency.map_values(|l: Vec<String>| names_of(l@))
}

/// The names in a list of weighted adjacency lists.
pub open spec fn weighted_adjacency_names(adjacency: Seq<Vec<(String, i32)>>) -> Seq<
    Seq<Seq<char>>,
> {
    adjacency.map_values(|l: Vec<(String, i32)>| l@.map_values(|p: (String, i32)| p.0@))
}

/// `i` is the position of the first occurrence of `name` in `names`.
pub open spec fn is_first_index(names: Seq<Seq<char>>, name: Seq<char>, i: int) -> bool {
    &&& 0 <= i < names.len()
    &&& names[i] == name
    &&& forall|k: int| 0 <= k < i ==> names[k] != name
}

/// The position of the first occurrence of `name` in `names`, if it occurs.
pub fn find_name(names: &Vec<String>, name: &String) -> (r: Option<usize>)
    ensures
        match r {
            Some(i) => is_first_index(names_of(names@), name@, i as int),
            None => !names_of(names@).contains(name@),
        },
{
    let mut i: usize = 0;
    while i < names.len()
        invariant
            i <= names.len(),
            forall|k: int| 0 <= k < i ==> names_of(names@)[k] != name@,
        decreases names.len() - i,
    {
        if names[i] == *name {
            return Some(i);
        }
        i += 1;
    }
    assert forall|k: int| 0 <= k < names_of(names@).len() implies names_of(names@)[k] != name@ by {}
    None
}

/// Whether every neighbour in `adjacency` is one of `nodes`: the check that a
/// built graph names no node it does not hold. `adjacency[i]` lists the
/// neighbours of the `i`-th node.
pub fn neighbours_are_nodes(nodes: &Vec<String>, adjacency: &Vec<Vec<String>>) -> (ok: bool)
    ensures
        ok == adjacency_closed(names_of(nodes@), adjacency_names(adjacency@)),
{
    let ghost adj = adjacency_names(adjacency@);
    let mut i: usize = 0;
    while i < adjacency.len()
        invariant
            i <= adjacency.len(),
            adj == adjacency_names(adjacency@),
            forall|a: int, b: int|
                0 <= a < i && 0 <= b < adj[a].len() ==> names_of(nodes@).contains(#[trigger] adj[a][b]),
        decreases adjacency.len() - i,
    {
        let list = &adjacency[i];
        let mut j: usize = 0;
        while j < list.len()
            invariant
                i < adjacency.len(),
                j <= list.len(),
                list == adjacency@[i as int],
                adj == adjacency_names(adjacency@),
                forall|a: int, b: int|
                    0 <= a < i && 0 <= b < adj[a].len() ==> names_of(nodes@).contains(#[trigger] adj[a][b]),
                forall|b: int| 0 <= b < j ==> names_of(nodes@).contains(#[trigger] adj[i as int][b]),
            decreases list.len() - j,
        {
            match find_name(nodes, &list[j]) {
                Some(_) => {},
                None => {
                    assert(adj[i as int][j as int] == list@[j as int]@);
                    return false;
                },
            }
            assert(adj[i as int][j as int] == list@[j as int]@);
            j += 1;
        }
        i += 1;
    }
    true
}

/// A graph whose nodes are the positions `0..n` and whose weighted neighbour
/// lists are kept in order.
pub struct IndexGraph {
    adj: Vec<Vec<(usize, i32)>>,
}

/// Every neighbour of every node is a node.
pub open spec fn index_adjacency_wf(adj: Seq<Seq<(usize, i32)>>) -> bool {
    forall|i: int, j: int| 0 <= i < adj.len() && 0 <= j < adj[i].len() ==> (#[trigger] adj[i][j]).0 < adj.len()
}

impl View for IndexGraph {
    type V = Seq<Seq<(usize, i32)>>;

    closed spec fn view(&self) -> Seq<Seq<(usize, i32)>> {
        self.adj@.map_values(|l: Vec<(usize, i32)>| l@)
    }
}

/// `g` is the graph of `nodes` and `adjacency` with every neighbour replaced by
/// the position of its name among the nodes.
pub open spec fn indexes_names(
    g: Seq<Seq<(usize, i32)>>,
    nodes: Seq<Seq<char>>,
    adjacency: Seq<Vec<(String, i32)>>,
) -> bool {
    &&& g.len() == adjacency.len()
    &&& forall|i: int| 0 <= i < g.len() ==> (#[trigger] g[i]).len() == adjacency[i]@.len()
    &&& forall|i: int, j: int|
        0 <= i < g.len() && 0 <= j < g[i].len() ==> {
            &&& is_first_index(nodes, adjacency[i]@[j].0@, (#[trigger] g[i][j]).0 as int)
            &&& g[i][j].1 == adjacency[i]@[j].1
        }
}


/// The number of entries of `l` that lead to `b`, and the sum of their weights.
pub open spec fn edges_to(l: Seq<(usize, i32)>, b: usize) -> (nat, int)
    decreases l.len(),
{
    if l.len() == 0 {
        (0, 0)
    } else {
        let (c, t) = edges_to(l.drop_last(), b);
        if l.last().0 == b {
            (c + 1, t + l.last().1)
        } else {
            (c, t)
        }
    }
}

/// The number of edges between `a` and `b` in either direction (an edge from
/// a node to itself counted twice), and the sum of their weights.
pub open spec fn connection_spec(adj: Seq<Seq<(usize, i32)>>, a: usize, b: usize) -> (nat, int) {
    let ab = edges_to(adj[a as int], b);
    let ba = edges_to(adj[b as int], a);
    (ab.0 + ba.0, ab.1 + ba.1)
}

/// Integer division rounding toward zero, as Rust's `/` does.
pub open spec fn div_toward_zero(t: int, c: int) -> int
    recommends
        c > 0,
{
    if t >= 0 {
        t / c
    } else {
        -((-t) / c)
    }
}

impl IndexGraph {
    /// The well-formedness of the graph: every neighbour is a node.
    pub open spec fn wf(&self) -> bool {
        index_adjacency_wf(self@)
    }

    /// The number of entries of `l` that lead to `b`, and their total weight.
    fn count_edges_to(l: &Vec<(usize, i32)>, b: usize) -> (r: (usize, i128))
        ensures
            r.0 as nat == edges_to(l@, b).0,
            r.1 as int == edges_to(l@, b).1,
            r.0 <= l@.len(),
            -2147483648 * r.0 <= r.1 <= 2147483647 * r.0,
    {
        let mut c: usize = 0;
        let mut t: i128 = 0;
        let mut i: usize = 0;
        while i < l.len()
            invariant
                i <= l@.len(),
                c <= i,
                -2147483648 * c <= t <= 2147483647 * c,
                (c as nat, t as int) == edges_to(l@.take(i as int), b),
            decreases l.len() - i,
        {
            proof {
                assert(l@.take(i + 1).drop_last() =~= l@.take(i as int));
            }
            if l[i].0 == b {
                c += 1;
                t += l[i].1 as i128;
            }
            i += 1;
        }
        assert(l@.take(l@.len() as int) =~= l@);
        (c, t)
    }

    /// The number of edges between nodes `a` and `b`, in either direction,
    /// and the sum of their weights.
    pub fn connection(&self, a: usize, b: usize) -> (r: (usize, i128))
        requires
            a < self@.len(),
            b < self@.len(),
            self@[a as int].len() + self@[b as int].len() <= usize::MAX,
        ensures
            (r.0 as nat, r.1 as int) == connection_spec(self@, a, b),
    {
        let ab = Self::count_edges_to(&self.adj[a], b);
        let ba = Self::count_edges_to(&self.adj[b], a);
        assert(self.adj@[a as int]@ == self@[a as int]);
        assert(self.adj@[b as int]@ == self@[b as int]);
        (ab.0 + ba.0, ab.1 + ba.1)
    }

    /// The mean weight of the edges between nodes `a` and `b`, in either
    /// direction, rounded toward zero; `None` when no edge joins them.
    pub fn mean_connection_weight(&self, a: usize, b: usize) -> (r: Option<i128>)
        requires
            a < self@.len(),
            b < self@.len(),
            self@[a as int].len() + self@[b as int].len() <= usize::MAX,
        ensures
            connection_spec(self@, a, b).0 == 0 <==> r is None,
            r matches Some(m) ==> m as int == div_toward_zero(
                connection_spec(self@, a, b).1,
                connection_spec(self@, a, b).0 as int,
            ),
    {
        let (c, t) = self.connection(a, b);
        if c == 0 {
            None
        } else {
            let m = t / (c as i128);
            assert(m as int == div_toward_zero(t as int, c as int));
            Some(m)
        }
    }

    /// The number of nodes.
    pub fn len(&self) -> (n: usize)
        ensures
            n == self@.len(),
    {
        self.adj.len()
    }

    /// The neighbours of node `i` with the weights of the edges to them.
    pub fn neighbours(&self, i: usize) -> (r: &Vec<(usize, i32)>)
        requires
            i < self@.len(),
        ensures
            r@ == self@[i as int],
    {
        &self.adj[i]
    }

    /// The graph of `nodes` with the weighted neighbour lists `adjacency`
    /// (`adjacency[i]` belongs to `nodes[i]`), each neighbour given by the
    /// position of its first occurrence among the nodes; `None` when some
    /// neighbour is not one of the nodes.
    pub fn from_names(nodes: &Vec<String>, adjacency: &Vec<Vec<(String, i32)>>) -> (r: Option<
        IndexGraph,
    >)
        requires
            adjacency.len() == nodes.len(),
        ensures
            r is Some <==> adjacency_closed(names_of(nodes@), weighted_adjacency_names(adjacency@)),
            r matches Some(g) ==> g.wf() && indexes_names(g@, names_of(nodes@), adjacency@),
    {
        let ghost wnames = weighted_adjacency_names(adjacency@);
        let mut adj: Vec<Vec<(usize, i32)>> = Vec::new();
        let mut i: usize = 0;
        while i < adjacency.len()
            invariant
                i <= adjacency.len(),
                adjacency.len() == nodes.len(),
                wnames == weighted_adjacency_names(adjacency@),
                adj@.len() == i,
                forall|a: int, b: int|
                    0 <= a < i && 0 <= b < wnames[a].len() ==> names_of(nodes@).contains(#[trigger] wnames[a][b]),
                forall|a: int| 0 <= a < i ==> (#[trigger] adj@[a])@.len() == adjacency@[a]@.len(),
                forall|a: int, b: int|
                    0 <= a < i && 0 <= b < adj@[a]@.len() ==> {
                        &&& is_first_index(names_of(nodes@), adjacency@[a]@[b].0@, (#[trigger] adj@[a]@[b]).0 as int)
                        &&& adj@[a]@[b].1 == adjacency@[a]@[b].1
                    },
            decreases adjacency.len() - i,
        {
            let list = &adjacency[i];
            let mut row: Vec<(usize, i32)> = Vec::new();
            let mut j: usize = 0;
            while j < list.len()
                invariant
                    i < adjacency.len(),
                    j <= list.len(),
                    list == adjacency@[i as int],
                    wnames == weighted_adjacency_names(adjacency@),
                    row@.len() == j,
                    forall|b: int| 0 <= b < j ==> names_of(nodes@).contains(#[trigger] wnames[i as int][b]),
                    forall|b: int|
                        0 <= b < j ==> {
                            &&& is_first_index(names_of(nodes@), list@[b].0@, (#[trigger] row@[b]).0 as int)
                            &&& row@[b].1 == list@[b].1
                        },
                decreases list.len() - j,
            {
                assert(wnames[i as int][j as int] == list@[j as int].0@);
                match find_name(nodes, &list[j].0) {
                    Some(k) => {
                        row.push((k, list[j].1));
                    },
                    None => {
                        return None;
                    },
                }
                j += 1;
            }
            adj.push(row);
            i += 1;
        }
        let g = IndexGraph { adj };
        proof {
            assert forall|a: int, b: int|
                0 <= a < g@.len() && 0 <= b < g@[a].len() implies (#[trigger] g@[a][b]).0 < g@.len() by {
                assert(g@[a] == adj@[a]@);
                assert(is_first_index(names_of(nodes@), adjacency@[a]@[b].0@, adj@[a]@[b].0 as int));
            }
            assert forall|a: int| 0 <= a < g@.len() implies (#[trigger] g@[a]).len() == adjacency@[a]@.len() by {
                assert(g@[a] == adj@[a]@);
            }
            assert forall|a: int, b: int| 0 <= a < g@.len() && 0 <= b < g@[a].len() implies {
                &&& is_first_index(names_of(nodes@), adjacency@[a]@[b].0@, (#[trigger] g@[a][b]).0 as int)
                &&& g@[a][b].1 == adjacency@[a]@[b].1
            } by {
                assert(g@[a] == adj@[a]@);
            }
        }
        Some(g)
    }
}

} // verus!
