use vstd::prelude::*;

verus! {

broadcast use vstd::std_specs::vec::group_vec_axioms;

/// A directed graph over the nodes `0 .. n`, held as one list of successors per node.
pub struct Graph {
    pub adjacency_list: Vec<Vec<usize>>,
}

/// Whether every successor named in `adj` is a node of the graph.
pub open spec fn adj_wf(adj: Seq<Vec<usize>>) -> bool {
    forall|u: int, j: int|
        0 <= u < adj.len() && 0 <= j < adj[u]@.len() ==> (#[trigger] adj[u]@[j]) < adj.len()
}

/// Whether `u` has no successor.
pub open spec fn is_leaf(adj: Seq<Vec<usize>>, u: int) -> bool {
    adj[u]@.len() == 0
}

/// Whether `x` occurs in `s` before the position `p`.
pub open spec fn occurs_before(s: Seq<usize>, p: int, x: usize) -> bool {
    exists|q: int| 0 <= q < p && #[trigger] s[q] == x
}

/// Whether `s` holds each node `0 .. n` exactly once.
pub open spec fn is_permutation(s: Seq<usize>, n: int) -> bool {
    &&& s.len() == n
    &&& forall|i: int| 0 <= i < s.len() ==> (#[trigger] s[i]) < n
    &&& forall|i: int, j: int| 0 <= i < j < s.len() ==> s[i] != s[j]
}

/// Whether every successor of every node of `order` occurs in `order` before that node:
/// `order` lists each node after everything it depends on.
pub open spec fn is_topological(adj: Seq<Vec<usize>>, order: Seq<usize>) -> bool {
    forall|p: int, j: int|
        0 <= p < order.len() && 0 <= j < adj[order[p] as int]@.len() ==> occurs_before(
            order,
            p,
            #[trigger] adj[order[p] as int]@[j],
        )
}

/// Whether `rank` falls along every edge: each successor has a lower rank than its node.
pub open spec fn ranked_by(adj: Seq<Vec<usize>>, rank: spec_fn(int) -> int) -> bool {
    forall|u: int, j: int|
        0 <= u < adj.len() && 0 <= j < adj[u]@.len() ==> rank(#[trigger] adj[u]@[j] as int) < rank(u)
}

/// Whether the graph has no cycle: its nodes can be ranked so that every edge goes to a
/// lower rank (a graph has such a ranking exactly when it has no cycle).
pub open spec fn acyclic(adj: Seq<Vec<usize>>) -> bool {
    exists|rank: spec_fn(int) -> int| ranked_by(adj, rank)
}

/// A ranking of the nodes of an acyclic graph.
pub open spec fn a_rank(adj: Seq<Vec<usize>>) -> spec_fn(int) -> int {
    choose|rank: spec_fn(int) -> int| ranked_by(adj, rank)
}

/// Whether `x` has been reached by a walk that has not finished it yet.
pub open spec fn in_progress(seen: Seq<bool>, branch: Seq<usize>, x: int) -> bool {
    seen[x] && !branch.contains(x as usize)
}

impl Graph {
    pub open spec fn wf(&self) -> bool {
        adj_wf(self.adjacency_list@)
    }

    pub fn new() -> (g: Self)
        ensures
            g.adjacency_list@.len() == 0,
            g.wf(),
    {
        Graph { adjacency_list: Vec::new() }
    }

    /// Adds a node without successors; nodes are numbered in the order they are added.
    pub fn add_node(&mut self, _expr_index: usize)
        ensures
            final(self).adjacency_list@.len() == old(self).adjacency_list@.len() + 1,
            final(self).adjacency_list@.subrange(0, old(self).adjacency_list@.len() as int)
                == old(self).adjacency_list@,
            final(self).adjacency_list@.last()@.len() == 0,
    {
        self.adjacency_list.push(Vec::new());
    }

    /// Adds the edge `src -> dst`.
    pub fn add_directed_edge(&mut self, src_expr_index: usize, dst_expr_index: usize)
        requires
            src_expr_index < old(self).adjacency_list@.len(),
        ensures
            final(self).adjacency_list@.len() == old(self).adjacency_list@.len(),
            final(self).adjacency_list@[src_expr_index as int]@ == old(self).adjacency_list@[src_expr_index as int]@.push(dst_expr_index),
            forall|u: int|
                0 <= u < old(self).adjacency_list@.len() && u != src_expr_index ==> (#[trigger] final(self).adjacency_list@[u])@ == old(self).adjacency_list@[u]@,
    {
        let mut list = Vec::new();
        std::mem::swap(&mut list, &mut self.adjacency_list[src_expr_index]);
        list.push(dst_expr_index);
        self.adjacency_list.set(src_expr_index, list);
    }

    /// The successors of `expr_index`.
    pub fn get_node_descendants(&self, expr_index: usize) -> (r: Vec<usize>)
        requires
            expr_index < self.adjacency_list@.len(),
        ensures
            r@ == self.adjacency_list@[expr_index as int]@,
    {
        let list = &self.adjacency_list[expr_index];
        let mut r: Vec<usize> = Vec::new();
        let mut i: usize = 0;
        while i < list.len()
            invariant
                i <= list@.len(),
                r@ == list@.subrange(0, i as int),
            decreases list.len() - i,
        {
            r.push(list[i]);
            i = i + 1;
        }
        r
    }

    /// Whether `expr_index` has a successor.
    pub fn has_node_descendants(&self, expr_index: usize) -> (r: bool)
        requires
            expr_index < self.adjacency_list@.len(),
        ensures
            r == !is_leaf(self.adjacency_list@, expr_index as int),
    {
        self.adjacency_list[expr_index].len() > 0
    }

    pub fn nodes_count(&self) -> (r: usize)
        ensures
            r == self.adjacency_list@.len(),
    {
        self.adjacency_list.len()
    }
}

/// The number of `false` entries of `s`.
pub open spec fn unseen_count(s: Seq<bool>) -> nat
    decreases s.len(),
{
    if s.len() == 0 {
        0
    } else {
        unseen_count(s.drop_last()) + if s.last() {
            0nat
        } else {
            1nat
        }
    }
}

/// Whether every entry set in `a` is set in `b`.
pub open spec fn seen_grows(a: Seq<bool>, b: Seq<bool>) -> bool {
    &&& a.len() == b.len()
    &&& forall|i: int| 0 <= i < a.len() && #[trigger] a[i] ==> b[i]
}

proof fn lemma_unseen_monotone(a: Seq<bool>, b: Seq<bool>)
    requires
        seen_grows(a, b),
    ensures
        unseen_count(b) <= unseen_count(a),
    decreases a.len(),
{
    if a.len() > 0 {
        assert(seen_grows(a.drop_last(), b.drop_last())) by {
            assert forall|i: int| 0 <= i < a.drop_last().len() && #[trigger] a.drop_last()[i]
                implies b.drop_last()[i] by {
                assert(a[i]);
            }
        }
        lemma_unseen_monotone(a.drop_last(), b.drop_last());
        if a.last() {
            assert(b[b.len() - 1]);
        }
    }
}

proof fn lemma_unseen_mark(s: Seq<bool>, i: int)
    requires
        0 <= i < s.len(),
        !s[i],
    ensures
        unseen_count(s.update(i, true)) + 1 == unseen_count(s),
    decreases s.len(),
{
    let t = s.update(i, true);
    if i == s.len() - 1 {
        assert(t.drop_last() =~= s.drop_last());
    } else {
        assert(t.drop_last() =~= s.drop_last().update(i, true));
        lemma_unseen_mark(s.drop_last(), i);
    }
}

/// What a depth-first walk keeps between two visits: the finished nodes `branch` are
/// distinct and seen, every successor of a finished node is seen, a successor without
/// successors of its own was finished before it, and every seen node without successors
/// (other than `cur`) is finished.
pub open spec fn dfs_inv(adj: Seq<Vec<usize>>, seen: Seq<bool>, branch: Seq<usize>, cur: int) -> bool {
    &&& seen.len() == adj.len()
    &&& forall|p: int| 0 <= p < branch.len() ==> (#[trigger] branch[p]) < adj.len() && seen[branch[p] as int]
    &&& forall|p: int, q: int| 0 <= p < q < branch.len() ==> branch[p] != branch[q]
    &&& forall|p: int, j: int|
        0 <= p < branch.len() && 0 <= j < adj[branch[p] as int]@.len() ==> {
            &&& seen[#[trigger] adj[branch[p] as int]@[j] as int]
            &&& is_leaf(adj, adj[branch[p] as int]@[j] as int) ==> occurs_before(
                branch,
                p,
                adj[branch[p] as int]@[j],
            )
        }
    &&& forall|w: int|
        0 <= w < adj.len() && w != cur && #[trigger] seen[w] && is_leaf(adj, w) ==> branch.contains(
            w as usize,
        )
    &&& acyclic(adj) ==> is_topological(adj, branch)
}

/// A depth-first walk over a graph that remembers the nodes it has reached.
pub struct GraphWalker {
    pub seen: Vec<bool>,
}

impl GraphWalker {
    /// A walker that has reached no node of a graph of `n` nodes.
    pub fn new(n: usize) -> (w: Self)
        ensures
            w.seen@.len() == n,
            forall|i: int| 0 <= i < n ==> !(#[trigger] w.seen@[i]),
    {
        let mut seen: Vec<bool> = Vec::new();
        let mut i: usize = 0;
        while i < n
            invariant
                i <= n,
                seen@.len() == i,
                forall|k: int| 0 <= k < i ==> !(#[trigger] seen@[k]),
            decreases n - i,
        {
            seen.push(false);
            i = i + 1;
        }
        GraphWalker { seen }
    }

    /// Depth-first search producing a post-order sort: every node is listed once, and a
    /// successor without successors of its own comes before the node that points to it.
    pub fn get_sorted_dependencies(&mut self, graph: &Graph) -> (sorted: Vec<usize>)
        requires
            graph.wf(),
            old(self).seen@.len() == graph.adjacency_list@.len(),
            forall|i: int| 0 <= i < old(self).seen@.len() ==> !(#[trigger] old(self).seen@[i]),
        ensures
            is_permutation(sorted@, graph.adjacency_list@.len() as int),
            forall|p: int, j: int|
                0 <= p < sorted@.len() && 0 <= j < graph.adjacency_list@[sorted@[p] as int]@.len()
                    && is_leaf(graph.adjacency_list@, graph.adjacency_list@[sorted@[p] as int]@[j] as int)
                    ==> occurs_before(sorted@, p, #[trigger] graph.adjacency_list@[sorted@[p] as int]@[j]),
            acyclic(graph.adjacency_list@) ==> is_topological(graph.adjacency_list@, sorted@),
    {
        let ghost adj = graph.adjacency_list@;
        let mut sorted_indexes: Vec<usize> = Vec::new();
        let n = graph.nodes_count();
        let mut expr_index: usize = 0;
        while expr_index < n
            invariant
                n == adj.len(),
                adj == graph.adjacency_list@,
                graph.wf(),
                expr_index <= n,
                dfs_inv(adj, self.seen@, sorted_indexes@, -1),
                forall|i: int| 0 <= i < expr_index ==> #[trigger] self.seen@[i],
                forall|i: int| 0 <= i < n && #[trigger] self.seen@[i] ==> sorted_indexes@.contains(i as usize),
            decreases n - expr_index,
        {
            let ghost seen_before = self.seen@;
            let ghost sorted_before = sorted_indexes@;
            self.sort_dependencies_recursion(expr_index, graph, &mut sorted_indexes);
            proof {
                assert forall|i: int| 0 <= i < expr_index + 1 implies #[trigger] self.seen@[i] by {
                    if i < expr_index {
                        assert(seen_before[i]);
                    }
                }
                assert forall|i: int| 0 <= i < n && #[trigger] self.seen@[i] implies sorted_indexes@.contains(i as usize) by {
                    if seen_before[i] {
                        let q = choose|q: int| 0 <= q < sorted_before.len() && sorted_before[q] == i as usize;
                        assert(sorted_indexes@.subrange(0, sorted_before.len() as int)[q] == sorted_indexes@[q]);
                    }
                }
            }
            expr_index = expr_index + 1;
        }
        proof {
            let s = sorted_indexes@;
            assert forall|i: usize| i < n implies #[trigger] s.contains(i) by {
                assert(self.seen@[i as int]);
            }
            lemma_distinct_len(s, n as int);
        }
        sorted_indexes
    }

    /// Visits `tle_index` and, first, all it reaches that was not seen yet; each node is
    /// added to `branch` once all its successors have been visited.
    pub fn sort_dependencies_recursion(&mut self, tle_index: usize, graph: &Graph, branch: &mut Vec<usize>)
        requires
            graph.wf(),
            tle_index < graph.adjacency_list@.len(),
            dfs_inv(graph.adjacency_list@, old(self).seen@, old(branch)@, -1),
            forall|i: int|
                0 <= i < graph.adjacency_list@.len() && #[trigger] old(self).seen@[i] && i != tle_index
                    ==> old(branch)@.contains(i as usize) || !is_leaf(graph.adjacency_list@, i),
            acyclic(graph.adjacency_list@) ==> forall|x: int|
                0 <= x < graph.adjacency_list@.len() && #[trigger] in_progress(old(self).seen@, old(branch)@, x)
                    ==> a_rank(graph.adjacency_list@)(x) > a_rank(graph.adjacency_list@)(tle_index as int),
        ensures
            dfs_inv(graph.adjacency_list@, final(self).seen@, final(branch)@, -1),
            seen_grows(old(self).seen@, final(self).seen@),
            final(self).seen@[tle_index as int],
            final(branch)@.len() >= old(branch)@.len(),
            final(branch)@.subrange(0, old(branch)@.len() as int) == old(branch)@,
            forall|p: int|
                old(branch)@.len() <= p < final(branch)@.len() ==> !old(self).seen@[#[trigger] final(branch)@[p] as int],
            !old(self).seen@[tle_index as int] ==> final(branch)@.contains(tle_index),
            forall|i: int|
                0 <= i < graph.adjacency_list@.len() && #[trigger] final(self).seen@[i] && !old(self).seen@[i]
                    ==> final(branch)@.contains(i as usize),
        decreases unseen_count(old(self).seen@),
    {
        let ghost adj = graph.adjacency_list@;
        let ghost seen0 = self.seen@;
        let ghost branch0 = branch@;
        if self.seen[tle_index] {
            return;
        }
        self.seen.set(tle_index, true);
        let ghost seen1 = self.seen@;
        proof {
            lemma_unseen_mark(seen0, tle_index as int);
            if acyclic(adj) {
                assert forall|x: int|
                    0 <= x < adj.len() && #[trigger] in_progress(self.seen@, branch@, x)
                        implies x == tle_index || a_rank(adj)(x) > a_rank(adj)(tle_index as int) by {
                    if x != tle_index {
                        assert(in_progress(seen0, branch0, x));
                    }
                }
            }
        }
        let list = &graph.adjacency_list[tle_index];
        let mut k: usize = 0;
        while k < list.len()
            invariant
                graph.wf(),
                adj == graph.adjacency_list@,
                list@ == adj[tle_index as int]@,
                tle_index < adj.len(),
                k <= list@.len(),
                dfs_inv(adj, self.seen@, branch@, tle_index as int),
                seen_grows(seen1, self.seen@),
                seen1 == seen0.update(tle_index as int, true),
                unseen_count(seen1) < unseen_count(seen0),
                seen0 == old(self).seen@,
                seen0.len() == adj.len(),
                !seen0[tle_index as int],
                branch@.len() >= branch0.len(),
                branch@.subrange(0, branch0.len() as int) == branch0,
                forall|p: int|
                    branch0.len() <= p < branch@.len() ==> !seen0[#[trigger] branch@[p] as int]
                        && branch@[p] != tle_index,
                forall|j: int| 0 <= j < k ==> self.seen@[#[trigger] list@[j] as int],
                forall|i: int|
                    0 <= i < adj.len() && #[trigger] self.seen@[i] && !seen0[i] && i != tle_index
                        ==> branch@.contains(i as usize),
                acyclic(adj) ==> forall|x: int|
                    0 <= x < adj.len() && #[trigger] in_progress(self.seen@, branch@, x)
                        ==> x == tle_index || a_rank(adj)(x) > a_rank(adj)(tle_index as int),
                acyclic(adj) ==> forall|j: int| 0 <= j < k ==> branch@.contains(#[trigger] list@[j]),
            decreases list@.len() - k,
        {
            let neighbor = list[k];
            proof {
                if acyclic(adj) {
                    let rk = a_rank(adj);
                    assert(ranked_by(adj, rk));
                    assert(adj[tle_index as int]@[k as int] == neighbor);
                    assert(rk(neighbor as int) < rk(tle_index as int));
                    assert forall|x: int|
                        0 <= x < adj.len() && #[trigger] in_progress(self.seen@, branch@, x)
                            implies rk(x) > rk(neighbor as int) by {}
                }
                assert(neighbor < adj.len());
                lemma_unseen_monotone(seen1, self.seen@);
                assert forall|i: int|
                    0 <= i < adj.len() && #[trigger] self.seen@[i] && i != neighbor
                        implies branch@.contains(i as usize) || !is_leaf(adj, i) by {
                    if i == tle_index {
                        if is_leaf(adj, i) {
                            assert(list@.len() == 0);
                        }
                    }
                }
            }
            let ghost seen_before = self.seen@;
            let ghost branch_before = branch@;
            self.sort_dependencies_recursion(neighbor, graph, branch);
            proof {
                assert forall|p: int| branch0.len() <= p < branch@.len() implies !seen0[#[trigger] branch@[p] as int]
                    && branch@[p] != tle_index by {
                    if p < branch_before.len() {
                        assert(branch@.subrange(0, branch_before.len() as int)[p] == branch@[p]);
                        assert(branch@[p] == branch_before[p]);
                    } else {
                        let x = branch@[p] as int;
                        assert(x < adj.len());
                        assert(!seen_before[x]);
                        if seen0[x] {
                            assert(seen1[x]);
                        }
                        assert(seen1[tle_index as int]);
                        assert(seen_before[tle_index as int]);
                    }
                }
                assert forall|j: int| 0 <= j < k + 1 implies self.seen@[#[trigger] list@[j] as int] by {
                    if j < k {
                        assert(seen_before[list@[j] as int]);
                    }
                }
                assert(branch@.subrange(0, branch0.len() as int) =~= branch0) by {
                    assert forall|p: int| 0 <= p < branch0.len() implies branch@[p] == branch0[p] by {
                        assert(branch@.subrange(0, branch_before.len() as int)[p] == branch@[p]);
                        assert(branch_before.subrange(0, branch0.len() as int)[p] == branch_before[p]);
                    }
                }
                assert(seen_grows(seen1, self.seen@)) by {
                    assert forall|i: int| 0 <= i < seen1.len() && #[trigger] seen1[i] implies self.seen@[i] by {
                        assert(seen_before[i]);
                    }
                }
                assert forall|i: int|
                    0 <= i < adj.len() && #[trigger] self.seen@[i] && !seen0[i] && i != tle_index
                        implies branch@.contains(i as usize) by {
                    if seen_before[i] {
                        let q = choose|q: int| 0 <= q < branch_before.len() && branch_before[q] == i as usize;
                        assert(branch@.subrange(0, branch_before.len() as int)[q] == branch@[q]);
                        assert(branch@[q] == branch_before[q]);
                    }
                }
                if acyclic(adj) {
                    let rk = a_rank(adj);
                    assert(ranked_by(adj, rk));
                    assert(adj[tle_index as int]@[k as int] == neighbor);
                    assert forall|x: int|
                        0 <= x < adj.len() && #[trigger] in_progress(self.seen@, branch@, x)
                            implies x == tle_index || rk(x) > rk(tle_index as int) by {
                        if !seen_before[x] {
                            assert(branch@.contains(x as usize));
                        } else {
                            if branch_before.contains(x as usize) {
                                lemma_prefix_contains(branch_before, branch@, x as usize);
                            }
                            assert(in_progress(seen_before, branch_before, x));
                        }
                    }
                    if seen_before[neighbor as int] {
                        if branch_before.contains(neighbor) {
                            lemma_prefix_contains(branch_before, branch@, neighbor);
                        } else {
                            assert(in_progress(seen_before, branch_before, neighbor as int));
                        }
                    }
                    assert(branch@.contains(neighbor));
                    assert forall|j: int| 0 <= j < k + 1 implies branch@.contains(#[trigger] list@[j]) by {
                        if j < k {
                            lemma_prefix_contains(branch_before, branch@, list@[j]);
                        }
                    }
                }
            }
            k = k + 1;
        }
        proof {
            assert forall|p: int| 0 <= p < branch@.len() implies branch@[p] != tle_index by {
                if p < branch0.len() {
                    assert(branch@.subrange(0, branch0.len() as int)[p] == branch@[p]);
                    assert(branch@[p] == branch0[p]);
                    assert(seen0[branch0[p] as int]);
                }
            }
        }
        let ghost b = branch@;
        branch.push(tle_index);
        proof {
            let nb = branch@;
            assert(nb[b.len() as int] == tle_index);
            assert forall|p: int, j: int|
                0 <= p < nb.len() && 0 <= j < adj[nb[p] as int]@.len() implies {
                    &&& self.seen@[#[trigger] adj[nb[p] as int]@[j] as int]
                    &&& is_leaf(adj, adj[nb[p] as int]@[j] as int) ==> occurs_before(nb, p, adj[nb[p] as int]@[j])
                } by {
                let w = adj[nb[p] as int]@[j];
                if p < b.len() {
                    assert(nb[p] == b[p]);
                    if is_leaf(adj, w as int) {
                        let q = choose|q: int| 0 <= q < p && b[q] == w;
                        assert(nb[q] == b[q]);
                    }
                } else {
                    assert(w == list@[j]);
                    assert(self.seen@[w as int]);
                    if is_leaf(adj, w as int) {
                        assert(w != tle_index);
                        assert(b.contains(w));
                        let q = choose|q: int| 0 <= q < b.len() && b[q] == w;
                        assert(nb[q] == b[q]);
                    }
                }
            }
            assert forall|w: int|
                0 <= w < adj.len() && #[trigger] self.seen@[w] && is_leaf(adj, w) implies nb.contains(w as usize) by {
                if w == tle_index {
                    assert(nb[b.len() as int] == w as usize);
                } else {
                    assert(b.contains(w as usize));
                    let q = choose|q: int| 0 <= q < b.len() && b[q] == w as usize;
                    assert(nb[q] == b[q]);
                }
            }
            assert forall|i: int|
                0 <= i < adj.len() && #[trigger] self.seen@[i] && !seen0[i] implies nb.contains(i as usize) by {
                if i == tle_index {
                    assert(nb[b.len() as int] == i as usize);
                } else {
                    let q = choose|q: int| 0 <= q < b.len() && b[q] == i as usize;
                    assert(nb[q] == b[q]);
                }
            }
            assert(seen_grows(seen0, self.seen@)) by {
                assert forall|i: int| 0 <= i < seen0.len() && #[trigger] seen0[i] implies self.seen@[i] by {
                    assert(seen1[i]);
                }
            }
            assert(self.seen@[tle_index as int]) by {
                assert(seen1[tle_index as int]);
            }
            assert forall|p: int| 0 <= p < nb.len() implies (#[trigger] nb[p]) < adj.len() && self.seen@[nb[p] as int] by {
                if p < b.len() {
                    assert(nb[p] == b[p]);
                }
            }
            assert forall|p: int, q: int| 0 <= p < q < nb.len() implies nb[p] != nb[q] by {
                assert(nb[p] == b[p]);
                if q < b.len() {
                    assert(nb[q] == b[q]);
                }
            }
            assert(nb.subrange(0, branch0.len() as int) =~= branch0) by {
                assert forall|p: int| 0 <= p < branch0.len() implies nb[p] == branch0[p] by {
                    assert(nb[p] == b[p]);
                    assert(b.subrange(0, branch0.len() as int)[p] == branch0[p]);
                }
            }
            if acyclic(adj) {
                assert forall|p: int, j: int|
                    0 <= p < nb.len() && 0 <= j < adj[nb[p] as int]@.len() implies occurs_before(
                        nb,
                        p,
                        #[trigger] adj[nb[p] as int]@[j],
                    ) by {
                    let w = adj[nb[p] as int]@[j];
                    if p < b.len() {
                        assert(nb[p] == b[p]);
                        assert(occurs_before(b, p, adj[b[p] as int]@[j]));
                        let q = choose|q: int| 0 <= q < p && b[q] == w;
                        assert(nb[q] == b[q]);
                    } else {
                        assert(w == list@[j]);
                        assert(b.contains(list@[j]));
                        let q = choose|q: int| 0 <= q < b.len() && b[q] == w;
                        assert(nb[q] == b[q]);
                    }
                }
            }
        }
    }

    /// The nodes that the sorted order does not clear. A node is cleared when each of
    /// its successors has no successor or was cleared already; `None` when every node is
    /// cleared, and then every node comes after all its successors in `sorted_indexes`.
    pub fn get_cycling_dependencies(&mut self, graph: &Graph, sorted_indexes: &Vec<usize>) -> (r: Option<Vec<usize>>)
        requires
            graph.wf(),
            is_permutation(sorted_indexes@, graph.adjacency_list@.len() as int),
            forall|p: int, j: int|
                0 <= p < sorted_indexes@.len() && 0 <= j < graph.adjacency_list@[sorted_indexes@[p] as int]@.len()
                    && is_leaf(graph.adjacency_list@, graph.adjacency_list@[sorted_indexes@[p] as int]@[j] as int)
                    ==> occurs_before(sorted_indexes@, p, #[trigger] graph.adjacency_list@[sorted_indexes@[p] as int]@[j]),
        ensures
            r is None ==> is_topological(graph.adjacency_list@, sorted_indexes@),
            is_topological(graph.adjacency_list@, sorted_indexes@) ==> r is None,
            r matches Some(deps) ==> deps@.len() > 0 && forall|i: int|
                0 <= i < deps@.len() ==> sorted_indexes@.contains(#[trigger] deps@[i]),
    {
        let ghost adj = graph.adjacency_list@;
        let ghost sorted = sorted_indexes@;
        let n = graph.nodes_count();
        let mut tainted: Vec<bool> = Vec::new();
        let mut t: usize = 0;
        while t < n
            invariant
                t <= n,
                tainted@.len() == t,
                forall|x: int| 0 <= x < t ==> !(#[trigger] tainted@[x]),
            decreases n - t,
        {
            tainted.push(false);
            t = t + 1;
        }
        let mut k: usize = 0;
        while k < sorted_indexes.len()
            invariant
                graph.wf(),
                adj == graph.adjacency_list@,
                sorted == sorted_indexes@,
                n == adj.len(),
                is_permutation(sorted, n as int),
                k <= sorted.len(),
                tainted@.len() == n,
                forall|x: int|
                    0 <= x < n && #[trigger] tainted@[x] && !is_leaf(adj, x) ==> occurs_before(sorted, k as int, x as usize),
                forall|q: int, j: int|
                    0 <= q < k && tainted@[sorted[q] as int] && 0 <= j < adj[sorted[q] as int]@.len()
                        ==> is_leaf(adj, adj[sorted[q] as int]@[j] as int) || occurs_before(
                        sorted,
                        q,
                        #[trigger] adj[sorted[q] as int]@[j],
                    ),
                is_topological(adj, sorted) ==> forall|q: int| 0 <= q < k ==> #[trigger] tainted@[sorted[q] as int],
            decreases sorted.len() - k,
        {
            let node = sorted_indexes[k];
            let descendants = graph.get_node_descendants(node);
            let mut tainted_descendants_count: usize = 0;
            let mut d: usize = 0;
            while d < descendants.len()
                invariant
                    graph.wf(),
                    adj == graph.adjacency_list@,
                    sorted == sorted_indexes@,
                    n == adj.len(),
                    is_permutation(sorted, n as int),
                    k < sorted.len(),
                    node == sorted[k as int],
                    descendants@ == adj[node as int]@,
                    d <= descendants@.len(),
                    tainted_descendants_count <= d,
                    tainted@.len() == n,
                    tainted_descendants_count == d ==> forall|j: int|
                        0 <= j < d ==> is_leaf(adj, #[trigger] descendants@[j] as int) || occurs_before(
                            sorted,
                            k as int,
                            descendants@[j],
                        ),
                    forall|x: int|
                        0 <= x < n && #[trigger] tainted@[x] && !is_leaf(adj, x) ==> occurs_before(sorted, k as int, x as usize),
                    forall|q: int, j: int|
                        0 <= q < k && tainted@[sorted[q] as int] && 0 <= j < adj[sorted[q] as int]@.len()
                            ==> is_leaf(adj, adj[sorted[q] as int]@[j] as int) || occurs_before(
                            sorted,
                            q,
                            #[trigger] adj[sorted[q] as int]@[j],
                        ),
                    is_topological(adj, sorted) ==> forall|q: int| 0 <= q < k ==> #[trigger] tainted@[sorted[q] as int],
                    is_topological(adj, sorted) ==> tainted_descendants_count == d,
                decreases descendants@.len() - d,
            {
                let descendant = descendants[d];
                proof {
                    if is_topological(adj, sorted) && !is_leaf(adj, descendant as int) {
                        assert(descendants@[d as int] == adj[sorted[k as int] as int]@[d as int]);
                        assert(occurs_before(sorted, k as int, adj[sorted[k as int] as int]@[d as int]));
                        let q = choose|q: int| 0 <= q < k && sorted[q] == descendant;
                        assert(tainted@[sorted[q] as int]);
                    }
                }
                if !graph.has_node_descendants(descendant) || tainted[descendant] {
                    let ghost before = tainted@;
                    tainted.set(descendant, true);
                    proof {
                        assert forall|q: int, j: int|
                            0 <= q < k && tainted@[sorted[q] as int] && 0 <= j < adj[sorted[q] as int]@.len()
                                implies is_leaf(adj, adj[sorted[q] as int]@[j] as int) || occurs_before(
                                sorted,
                                q,
                                #[trigger] adj[sorted[q] as int]@[j],
                            ) by {
                            if !before[sorted[q] as int] {
                                assert(sorted[q] == descendant);
                            }
                        }
                    }
                    tainted_descendants_count = tainted_descendants_count + 1;
                }
                d = d + 1;
            }
            if tainted_descendants_count == descendants.len() {
                tainted.set(node, true);
            }
            proof {
                if is_topological(adj, sorted) {
                    assert forall|q: int| 0 <= q < k + 1 implies #[trigger] tainted@[sorted[q] as int] by {}
                }
                assert forall|x: int|
                    0 <= x < n && #[trigger] tainted@[x] && !is_leaf(adj, x) implies occurs_before(sorted, k + 1, x as usize) by {
                    if x == node {
                        assert(sorted[k as int] == node);
                    } else {
                        let q = choose|q: int| 0 <= q < k && sorted[q] == x as usize;
                        assert(sorted[q] == x as usize);
                    }
                }
                assert forall|q: int, j: int|
                    0 <= q < k + 1 && tainted@[sorted[q] as int] && 0 <= j < adj[sorted[q] as int]@.len()
                        implies is_leaf(adj, adj[sorted[q] as int]@[j] as int) || occurs_before(
                        sorted,
                        q,
                        #[trigger] adj[sorted[q] as int]@[j],
                    ) by {
                    if q == k {
                        assert(descendants@[j] == adj[sorted[q] as int]@[j]);
                    }
                }
            }
            k = k + 1;
        }
        let mut all_tainted = true;
        let mut x: usize = 0;
        while x < sorted_indexes.len()
            invariant
                x <= sorted.len(),
                sorted == sorted_indexes@,
                is_permutation(sorted, n as int),
                tainted@.len() == n,
                all_tainted ==> forall|p: int| 0 <= p < x ==> #[trigger] tainted@[sorted[p] as int],
                !all_tainted ==> exists|p: int| 0 <= p < x && !(#[trigger] tainted@[sorted[p] as int]),
                is_topological(adj, sorted) ==> all_tainted,
                is_topological(adj, sorted) ==> forall|q: int| 0 <= q < sorted.len() ==> #[trigger] tainted@[sorted[q] as int],
            decreases sorted.len() - x,
        {
            if !tainted[sorted_indexes[x]] {
                all_tainted = false;
            }
            x = x + 1;
        }
        if all_tainted {
            proof {
                assert forall|p: int, j: int|
                    0 <= p < sorted.len() && 0 <= j < adj[sorted[p] as int]@.len() implies occurs_before(
                        sorted,
                        p,
                        #[trigger] adj[sorted[p] as int]@[j],
                    ) by {
                    assert(tainted@[sorted[p] as int]);
                }
            }
            return None;
        }
        let mut deps: Vec<usize> = Vec::new();
        let mut y: usize = 0;
        while y < sorted_indexes.len()
            invariant
                y <= sorted.len(),
                sorted == sorted_indexes@,
                is_permutation(sorted, n as int),
                tainted@.len() == n,
                !all_tainted,
                exists|p: int| 0 <= p < sorted.len() && !(#[trigger] tainted@[sorted[p] as int]),
                forall|p: int| 0 <= p < y && !(#[trigger] tainted@[sorted[p] as int]) ==> deps@.contains(sorted[p]),
                forall|i: int| 0 <= i < deps@.len() ==> sorted.contains(#[trigger] deps@[i]),
            decreases sorted.len() - y,
        {
            let node = sorted_indexes[y];
            let ghost old_deps = deps@;
            if !tainted[node] {
                deps.push(node);
            }
            proof {
                assert forall|p: int| 0 <= p < y + 1 && !(#[trigger] tainted@[sorted[p] as int]) implies deps@.contains(sorted[p]) by {
                    if p < y {
                        let i = choose|i: int| 0 <= i < old_deps.len() && old_deps[i] == sorted[p];
                        assert(deps@[i] == old_deps[i]);
                    } else {
                        assert(deps@[deps@.len() - 1] == node);
                    }
                }
                assert forall|i: int| 0 <= i < deps@.len() implies sorted.contains(#[trigger] deps@[i]) by {
                    if i < old_deps.len() {
                        assert(deps@[i] == old_deps[i]);
                    } else {
                        assert(sorted[y as int] == node);
                    }
                }
            }
            y = y + 1;
        }
        proof {
            let p = choose|p: int| 0 <= p < sorted.len() && !(#[trigger] tainted@[sorted[p] as int]);
            assert(deps@.contains(sorted[p]));
        }
        Some(deps)
    }
}

/// What a list holds, a list that begins with it holds too.
proof fn lemma_prefix_contains(a: Seq<usize>, b: Seq<usize>, y: usize)
    requires
        a.len() <= b.len(),
        b.subrange(0, a.len() as int) == a,
        a.contains(y),
    ensures
        b.contains(y),
{
    let q = choose|q: int| 0 <= q < a.len() && a[q] == y;
    assert(b.subrange(0, a.len() as int)[q] == b[q]);
}

/// A list of distinct nodes below `n` that holds each of them has length `n`.
proof fn lemma_distinct_len(s: Seq<usize>, n: int)
    requires
        0 <= n <= usize::MAX,
        forall|i: int| 0 <= i < s.len() ==> (#[trigger] s[i]) < n,
        forall|i: int, j: int| 0 <= i < j < s.len() ==> s[i] != s[j],
        forall|i: usize| i < n ==> #[trigger] s.contains(i),
    ensures
        s.len() == n,
{
    let m = s.map_values(|x: usize| x as int);
    assert forall|i: int, j: int| 0 <= i < m.len() && 0 <= j < m.len() && i != j implies m[i] != m[j] by {
        if i < j {
            assert(s[i] != s[j]);
        } else {
            assert(s[j] != s[i]);
        }
    }
    let st = m.to_set();
    assert(st =~= Set::new(|i: int| 0 <= i < n)) by {
        assert forall|i: int| st.contains(i) implies 0 <= i < n by {
            let k = choose|k: int| 0 <= k < m.len() && m[k] == i;
            assert(s[k] < n);
        }
        assert forall|i: int| 0 <= i < n implies st.contains(i) by {
            assert(s.contains(i as usize));
            let k = choose|k: int| 0 <= k < s.len() && s[k] == i as usize;
            assert(m[k] == s[k] as int);
            assert((i as usize) as int == i);
            assert(m.contains(i));
        }
    }
    m.unique_seq_to_set();
    vstd::set_lib::lemma_int_range(0, n);
    assert(Set::new(|i: int| 0 <= i < n) =~= vstd::set_lib::set_int_range(0, n));
}

} // verus!
