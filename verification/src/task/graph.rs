//! Directed graphs on `0..n` and the search for a cycle in them.

use vstd::prelude::*;

verus! {

/// Every edge ends at a node of the graph.
pub open spec fn well_formed(adj: Seq<Seq<usize>>) -> bool {
    forall|u: int, k: int|
        0 <= u < adj.len() && 0 <= k < adj[u].len() ==> (#[trigger] adj[u][k]) < adj.len()
}

/// There is an edge from `u` to `v`.
pub open spec fn edge(adj: Seq<Seq<usize>>, u: int, v: int) -> bool {
    0 <= u < adj.len() && 0 <= v < adj.len() && exists|k: int|
        0 <= k < adj[u].len() && #[trigger] adj[u][k] == v
}

/// Each node of `p` has an edge to the next one.
pub open spec fn is_walk(adj: Seq<Seq<usize>>, p: Seq<int>) -> bool {
    forall|i: int| 0 <= i < p.len() - 1 ==> edge(adj, #[trigger] p[i], p[i + 1])
}

/// A walk of at least one edge that ends where it starts.
pub open spec fn is_cycle(adj: Seq<Seq<usize>>, p: Seq<int>) -> bool {
    p.len() >= 2 && p[0] == p.last() && is_walk(adj, p)
}

/// Some walk returns to its start.
pub open spec fn cyclic(adj: Seq<Seq<usize>>) -> bool {
    exists|p: Seq<int>| is_cycle(adj, p)
}

spec fn weight(c: u8) -> int {
    if c == 0 {
        3
    } else if c == 1 {
        2
    } else {
        0
    }
}

spec fn total_weight(color: Seq<u8>) -> int
    decreases color.len(),
{
    if color.len() == 0 {
        0
    } else {
        total_weight(color.drop_last()) + weight(color.last())
    }
}

proof fn lemma_weight_nonneg(color: Seq<u8>)
    ensures
        total_weight(color) >= 0,
    decreases color.len(),
{
    if color.len() > 0 {
        lemma_weight_nonneg(color.drop_last());
    }
}

proof fn lemma_weight_update(color: Seq<u8>, i: int, c: u8)
    requires
        0 <= i < color.len(),
    ensures
        total_weight(color.update(i, c)) == total_weight(color) - weight(color[i]) + weight(c),
    decreases color.len(),
{
    if i == color.len() - 1 {
        assert(color.update(i, c).drop_last() == color.drop_last());
    } else {
        assert(color.update(i, c).drop_last() == color.drop_last().update(i, c));
        lemma_weight_update(color.drop_last(), i, c);
    }
}

/// Finished nodes only lead to nodes that finished before them.
spec fn finished_ok(adj: Seq<Seq<usize>>, color: Seq<u8>, fin: Seq<int>, clock: int) -> bool {
    &&& color.len() == adj.len()
    &&& fin.len() == adj.len()
    &&& forall|u: int| 0 <= u < adj.len() && color[u] == 2 ==> (#[trigger] fin[u]) < clock
    &&& forall|u: int, v: int|
        #![trigger edge(adj, u, v)]
        edge(adj, u, v) && color[u] == 2 ==> color[v] == 2 && fin[v] < fin[u]
}

/// The stack holds the grey nodes in the order of a walk; only its top may be white.
spec fn stack_ok(adj: Seq<Seq<usize>>, color: Seq<u8>, stack: Seq<usize>) -> bool {
    &&& forall|i: int| 0 <= i < stack.len() ==> (#[trigger] stack[i]) < adj.len()
    &&& forall|i: int| 0 <= i < stack.len() - 1 ==> color[(#[trigger] stack[i]) as int] == 1
    &&& forall|i: int|
        0 <= i < stack.len() - 1 ==> edge(adj, (#[trigger] stack[i]) as int, stack[i + 1] as int)
    &&& forall|u: int|
        0 <= u < adj.len() && #[trigger] color[u] == 1 ==> exists|i: int|
            0 <= i < stack.len() && stack[i] == u
    &&& forall|u: int| 0 <= u < adj.len() ==> #[trigger] color[u] <= 2
    &&& stack.len() > 0 ==> color[stack.last() as int] <= 1
    &&& forall|i: int, j: int| 0 <= i < j < stack.len() ==> stack[i] != stack[j]
}

/// Along a walk of finished nodes the finishing times fall.
proof fn lemma_walk_falls(
    adj: Seq<Seq<usize>>,
    color: Seq<u8>,
    fin: Seq<int>,
    clock: int,
    p: Seq<int>,
    k: int,
)
    requires
        finished_ok(adj, color, fin, clock),
        is_walk(adj, p),
        p.len() >= 2,
        1 <= k < p.len(),
        forall|u: int| 0 <= u < adj.len() ==> color[u] == 2,
    ensures
        fin[p[k]] < fin[p[0]],
    decreases k,
{
    assert(edge(adj, p[k - 1], p[k - 1 + 1]));
    if k > 1 {
        lemma_walk_falls(adj, color, fin, clock, p, k - 1);
    }
}

proof fn lemma_all_finished_acyclic(
    adj: Seq<Seq<usize>>,
    color: Seq<u8>,
    fin: Seq<int>,
    clock: int,
)
    requires
        finished_ok(adj, color, fin, clock),
        forall|u: int| 0 <= u < adj.len() ==> color[u] == 2,
    ensures
        !cyclic(adj),
{
    assert forall|p: Seq<int>| !is_cycle(adj, p) by {
        if is_cycle(adj, p) {
            lemma_walk_falls(adj, color, fin, clock, p, p.len() - 1);
        }
    }
}

/// A back edge from the top of the stack to a node on it closes a cycle.
proof fn lemma_back_edge(adj: Seq<Seq<usize>>, color: Seq<u8>, stack: Seq<usize>, v: int)
    requires
        stack_ok(adj, color, stack),
        stack.len() > 0,
        edge(adj, stack.last() as int, v),
        color[v] == 1,
        color[stack.last() as int] == 1,
    ensures
        cyclic(adj),
{
    let i = choose|i: int| 0 <= i < stack.len() && stack[i] == v;
    let m = stack.len() - i;
    let p = Seq::new((m + 1) as nat, |j: int| if j < m { stack[i + j] as int } else { v });
    assert forall|j: int| 0 <= j < p.len() - 1 implies edge(adj, #[trigger] p[j], p[j + 1]) by {
        if j < m - 1 {
            assert(edge(adj, stack[i + j] as int, stack[i + j + 1] as int));
        } else {
            assert(p[j] == stack.last());
        }
    }
    assert(is_cycle(adj, p));
}

/// What one look at a node's successors finds.
enum Next {
    Descend(usize),
    BackEdge(usize),
    Done,
}

/// The first successor of `node` that is not finished.
fn next_step(adj: &Vec<Vec<usize>>, color: &Vec<u8>, node: usize) -> (r: Next)
    requires
        node < adj@.len(),
        well_formed(rows(adj@)),
        color@.len() == adj@.len(),
        forall|u: int| 0 <= u < adj@.len() ==> #[trigger] color@[u] <= 2,
    ensures
        match r {
            Next::Descend(v) => edge(rows(adj@), node as int, v as int) && color@[v as int] == 0,
            Next::BackEdge(v) => edge(rows(adj@), node as int, v as int) && color@[v as int] == 1,
            Next::Done => forall|v: int|
                #[trigger] edge(rows(adj@), node as int, v) ==> color@[v] == 2,
        },
{
    let ghost g = rows(adj@);
    let row = &adj[node];
    let mut k: usize = 0;
    while k < row.len()
        invariant
            k <= row@.len(),
            node < adj@.len(),
            g == rows(adj@),
            row@ == g[node as int],
            well_formed(g),
            color@.len() == adj@.len(),
            forall|u: int| 0 <= u < adj@.len() ==> #[trigger] color@[u] <= 2,
            forall|j: int| 0 <= j < k ==> color@[(#[trigger] g[node as int][j]) as int] == 2,
        decreases row@.len() - k,
    {
        let v: usize = row[k];
        assert(g[node as int][k as int] == v);
        assert(edge(g, node as int, v as int));
        let c: u8 = color[v];
        if c == 0 {
            return Next::Descend(v);
        }
        if c == 1 {
            return Next::BackEdge(v);
        }
        k = k + 1;
    }
    Next::Done
}

/// The adjacency lists as sequences.
pub open spec fn rows(adj: Seq<Vec<usize>>) -> Seq<Seq<usize>> {
    Seq::new(adj.len(), |i: int| adj[i]@)
}

/// Whether the graph has a cycle: a depth-first search that colours a node
/// 0 before, 1 while and 2 after its successors are searched.
pub fn graph_has_cycle(adj: &Vec<Vec<usize>>) -> (r: bool)
    requires
        well_formed(rows(adj@)),
    ensures
        r == cyclic(rows(adj@)),
{
    let ghost g = rows(adj@);
    let n: usize = adj.len();
    let mut color: Vec<u8> = Vec::new();
    let mut i: usize = 0;
    while i < n
        invariant
            i <= n,
            color@.len() == i,
            forall|u: int| 0 <= u < i ==> color@[u] == 0,
        decreases n - i,
    {
        color.push(0);
        i = i + 1;
    }
    let ghost mut fin: Seq<int> = Seq::new(n as nat, |j: int| 0int);
    let ghost mut clock: int = 1;
    let mut start: usize = 0;
    while start < n
        invariant
            start <= n,
            n == adj@.len(),
            g == rows(adj@),
            well_formed(g),
            finished_ok(g, color@, fin, clock),
            forall|u: int| 0 <= u < start ==> #[trigger] color@[u] == 2,
            forall|u: int| 0 <= u < n ==> #[trigger] color@[u] == 0 || color@[u] == 2,
        decreases n - start,
    {
        if color[start] == 0 {
            let mut stack: Vec<usize> = Vec::new();
            stack.push(start);
            while stack.len() > 0
                invariant
                    start < n,
                    n == adj@.len(),
                    g == rows(adj@),
                    well_formed(g),
                    finished_ok(g, color@, fin, clock),
                    stack_ok(g, color@, stack@),
                    stack@.len() == 0 ==> color@[start as int] == 2,
                    stack@.len() > 0 ==> stack@[0] == start,
                    forall|u: int| 0 <= u < start ==> #[trigger] color@[u] == 2,
                decreases
                    total_weight(color@) + (if stack@.len() > 0 && color@[stack@.last() as int]
                        == 1 {
                        1int
                    } else {
                        0int
                    }),
            {
                let ghost color0 = color@;
                let ghost stack0 = stack@;
                let node: usize = stack[stack.len() - 1];
                if color[node] == 0 {
                    proof {
                        lemma_weight_update(color@, node as int, 1);
                    }
                    color.set(node, 1);
                }
                proof {
                    lemma_weight_nonneg(color@);
                    assert(stack@[stack@.len() - 1] == node);
                    assert(color@[node as int] == 1);
                    assert(stack_ok(g, color@, stack@)) by {
                        assert forall|u: int| 0 <= u < g.len() && #[trigger] color@[u]
                            == 1 implies exists|i: int| 0 <= i < stack@.len() && stack@[i] == u by {
                            if u == node {
                                assert(stack@[stack@.len() - 1] == u);
                            } else {
                                assert(color0[u] == 1);
                            }
                        }
                    }
                }
                match next_step(adj, &color, node) {
                    Next::BackEdge(v) => {
                        proof {
                            lemma_back_edge(g, color@, stack@, v as int);
                        }
                        return true;
                    },
                    Next::Descend(v) => {
                        stack.push(v);
                        proof {
                            assert forall|u: int| 0 <= u < g.len() && #[trigger] color@[u]
                                == 1 implies exists|i: int|
                                0 <= i < stack@.len() && stack@[i] == u by {
                                let i = choose|i: int| 0 <= i < stack0.len() && stack0[i] == u;
                                assert(stack@[i] == u);
                            }
                        }
                    },
                    Next::Done => {
                        let ghost color1 = color@;
                        proof {
                            lemma_weight_update(color@, node as int, 2);
                            fin = fin.update(node as int, clock);
                            clock = clock + 1;
                        }
                        color.set(node, 2);
                        stack.pop();
                        proof {
                            lemma_weight_nonneg(color@);
                            assert forall|u: int| 0 <= u < g.len() && #[trigger] color@[u]
                                == 1 implies exists|i: int|
                                0 <= i < stack@.len() && stack@[i] == u by {
                                assert(color1[u] == 1);
                                let i = choose|i: int| 0 <= i < stack0.len() && stack0[i] == u;
                                assert(i < stack0.len() - 1);
                                assert(stack@[i] == u);
                            }
                            if stack@.len() > 0 {
                                assert(stack0[stack0.len() - 2] == stack@.last());
                                assert(color1[stack@.last() as int] == 1);
                            }
                        }
                    },
                }
            }
        }
        start = start + 1;
    }
    proof {
        lemma_all_finished_acyclic(g, color@, fin, clock);
    }
    false
}

} // verus!
