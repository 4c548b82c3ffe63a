use vstd::prelude::*;
use crate::representations::{ClarityName, Span, SymbolicExpression, span_less, span_lt, str_equals};

verus! {

broadcast use vstd::std_specs::vec::group_vec_axioms;

/// A node of the taint graph: a name bound in the code, or an expression by its id.
#[derive(Clone, Copy, Debug)]
pub enum Node<'a> {
    Symbol(&'a ClarityName),
    Expr(u64),
}

/// What identifies a node: names are compared by their text.
pub enum NodeView {
    Symbol(Seq<char>),
    Expr(u64),
}

impl<'a> View for Node<'a> {
    type V = NodeView;

    open spec fn view(&self) -> NodeView {
        match self {
            Node::Symbol(n) => NodeView::Symbol(n@),
            Node::Expr(id) => NodeView::Expr(*id),
        }
    }
}

/// Whether two nodes are the same node.
pub fn same_node(a: &Node, b: &Node) -> (r: bool)
    ensures
        r == (a@ == b@),
{
    match (a, b) {
        (Node::Symbol(x), Node::Symbol(y)) => str_equals(x.as_str(), y.as_str()),
        (Node::Expr(x), Node::Expr(y)) => *x == *y,
        _ => false,
    }
}

/// The views of a list of nodes.
pub open spec fn nodes_view(s: Seq<Node>) -> Seq<NodeView> {
    s.map_values(|n: Node| n@)
}

/// The position of `n` in `nodes`, if it is there.
pub fn node_index(nodes: &Vec<Node>, n: &Node) -> (r: Option<usize>)
    ensures
        r matches Some(i) ==> i < nodes@.len() && nodes@[i as int]@ == n@,
        r is None ==> forall|i: int| 0 <= i < nodes@.len() ==> (#[trigger] nodes@[i])@ != n@,
{
    let mut i: usize = 0;
    while i < nodes.len()
        invariant
            i <= nodes@.len(),
            forall|k: int| 0 <= k < i ==> (#[trigger] nodes@[k])@ != n@,
        decreases nodes.len() - i,
    {
        if same_node(&nodes[i], n) {
            return Some(i);
        }
        i = i + 1;
    }
    None
}

/// Adds `n` to the set `nodes` unless it is there.
pub fn insert_node<'a>(nodes: &mut Vec<Node<'a>>, n: Node<'a>)
    ensures
        nodes_view(final(nodes)@).to_set() == nodes_view(old(nodes)@).to_set().insert(n@),
{
    match node_index(nodes, &n) {
        Some(i) => {
            proof {
                assert(nodes_view(nodes@)[i as int] == n@);
                assert(nodes_view(nodes@).to_set().insert(n@) =~= nodes_view(nodes@).to_set());
            }
        },
        None => {
            let ghost before = nodes_view(nodes@);
            nodes.push(n);
            proof {
                assert(nodes_view(nodes@) =~= before.push(n@));
                before.lemma_push_to_set_commute(n@);
            }
        },
    }
}

/// A source of taint: where it is, and the nodes it taints.
pub struct TaintSource<'a> {
    pub span: Span,
    pub children: Vec<Node<'a>>,
}

/// The tainted nodes and the sources of their taint, as a checker builds them while it
/// walks a contract.
pub struct TaintState<'a> {
    pub taint_sources: Vec<(Node<'a>, TaintSource<'a>)>,
    pub tainted_nodes: Vec<(Node<'a>, Vec<Node<'a>>)>,
}

/// The position of the entry of `n` in `entries`, if it has one.
pub fn entry_index<'a, V>(entries: &Vec<(Node<'a>, V)>, n: &Node<'a>) -> (r: Option<usize>)
    ensures
        r matches Some(i) ==> i < entries@.len() && entries@[i as int].0@ == n@,
        r matches Some(i) ==> forall|j: int| 0 <= j < i ==> (#[trigger] entries@[j]).0@ != n@,
        r is None ==> forall|i: int| 0 <= i < entries@.len() ==> (#[trigger] entries@[i]).0@ != n@,
{
    let mut i: usize = 0;
    while i < entries.len()
        invariant
            i <= entries@.len(),
            forall|k: int| 0 <= k < i ==> (#[trigger] entries@[k]).0@ != n@,
        decreases entries.len() - i,
    {
        if same_node(&entries[i].0, n) {
            return Some(i);
        }
        i = i + 1;
    }
    None
}

/// Whether some entry of `s` has the key `m`.
pub open spec fn keyed<'a, V>(s: Seq<(Node<'a>, V)>, m: NodeView) -> bool {
    exists|i: int| 0 <= i < s.len() && (#[trigger] s[i]).0@ == m
}

/// Removes every entry of `n` from `entries`, keeping the order of the others, and gives
/// the value of the first.
pub fn remove_key<'a, V>(entries: &mut Vec<(Node<'a>, V)>, n: &Node<'a>) -> (r: Option<V>)
    ensures
        r is Some <==> keyed(old(entries)@, n@),
        forall|m: NodeView| #[trigger] keyed(final(entries)@, m) == (keyed(old(entries)@, m) && m != n@),
{
    let mut taken: Vec<(Node<'a>, V)> = Vec::new();
    std::mem::swap(&mut taken, entries);
    let ghost orig = taken@;
    let mut rev = crate::parser::reversed(taken);
    let mut result: Option<V> = None;
    proof {
        assert(rev@ =~= orig.subrange(0, orig.len() as int).reverse());
    }
    while rev.len() > 0
        invariant
            rev@.len() <= orig.len(),
            rev@ == orig.subrange(orig.len() - rev@.len(), orig.len() as int).reverse(),
            result is Some <==> keyed(orig.subrange(0, orig.len() - rev@.len()), n@),
            forall|m: NodeView| #[trigger] keyed(entries@, m) == (keyed(orig.subrange(0, orig.len() - rev@.len()), m) && m != n@),
        decreases rev@.len(),
    {
        let ghost j = orig.len() - rev@.len();
        let ghost before = entries@;
        let (key, value) = rev.pop().unwrap();
        proof {
            assert(orig[j] == (key, value));
            assert(rev@ =~= orig.subrange(j + 1, orig.len() as int).reverse());
        }
        if same_node(&key, n) {
            if result.is_none() {
                result = Some(value);
            }
        } else {
            entries.push((key, value));
        }
        proof {
            let p = orig.subrange(0, j + 1);
            let q = orig.subrange(0, j);
            assert forall|m: NodeView| #[trigger] keyed(p, m) == (keyed(q, m) || orig[j].0@ == m) by {
                if keyed(p, m) {
                    let i = choose|i: int| 0 <= i < p.len() && (#[trigger] p[i]).0@ == m;
                    if i < j {
                        assert(q[i] == p[i]);
                    }
                }
                if keyed(q, m) {
                    let i = choose|i: int| 0 <= i < q.len() && (#[trigger] q[i]).0@ == m;
                    assert(p[i] == q[i]);
                }
                if orig[j].0@ == m {
                    assert(p[j] == orig[j]);
                }
            }
            assert forall|m: NodeView| #[trigger] keyed(entries@, m) == (keyed(p, m) && m != n@) by {
                if keyed(entries@, m) && entries@.len() > before.len() {
                    let i = choose|i: int| 0 <= i < entries@.len() && (#[trigger] entries@[i]).0@ == m;
                    if i < before.len() {
                        assert(before[i] == entries@[i]);
                    }
                }
                if keyed(before, m) {
                    let i = choose|i: int| 0 <= i < before.len() && (#[trigger] before[i]).0@ == m;
                    assert(entries@[i] == before[i]);
                }
                if orig[j].0@ == m && m != n@ {
                    assert(entries@[entries@.len() - 1] == orig[j]);
                }
            }
        }
    }
    proof {
        assert(orig.subrange(0, orig.len() as int) =~= orig);
    }
    result
}

/// The children of the taint source `t`, as a set.
pub open spec fn children_set<'a>(t: TaintSource<'a>) -> Set<NodeView> {
    nodes_view(t.children@).to_set()
}

/// Whether `i` is the first entry of `s` for its node.
pub open spec fn first_source_entry<'a, V>(s: Seq<(Node<'a>, V)>, i: int) -> bool {
    &&& 0 <= i < s.len()
    &&& forall|j: int| 0 <= j < i ==> (#[trigger] s[j]).0@ != s[i].0@
}

/// Two first entries of the same node are the same entry.
pub proof fn lemma_first_source_unique<'a, V>(s: Seq<(Node<'a>, V)>, i: int, j: int)
    requires
        first_source_entry(s, i),
        first_source_entry(s, j),
        s[i].0@ == s[j].0@,
    ensures
        i == j,
{
    if i < j {
        assert(s[i].0@ != s[j].0@);
    } else if j < i {
        assert(s[j].0@ != s[i].0@);
    }
}

/// The place of the source `m` in `ts`: the span of its first entry, if it has one.
pub open spec fn source_place<'a>(ts: Seq<(Node<'a>, TaintSource<'a>)>, m: NodeView) -> Option<Span> {
    if exists|i: int| #[trigger] first_source_entry(ts, i) && ts[i].0@ == m {
        Some(ts[choose|i: int| #[trigger] first_source_entry(ts, i) && ts[i].0@ == m].1.span)
    } else {
        None
    }
}

/// The places in `ts` of the sources `srcs` that are sources of taint, one per element.
pub open spec fn places_of<'a>(ts: Seq<(Node<'a>, TaintSource<'a>)>, srcs: Seq<Node<'a>>) -> vstd::multiset::Multiset<Span>
    decreases srcs.len(),
{
    if srcs.len() == 0 {
        vstd::multiset::Multiset::empty()
    } else {
        let rest = places_of(ts, srcs.drop_last());
        match source_place(ts, srcs.last()@) {
            Some(sp) => rest.insert(sp),
            None => rest,
        }
    }
}

/// The sources of the taint of `m` in `tn`: those of its first entry, if it has one.
pub open spec fn sources_in<'a>(tn: Seq<(Node<'a>, Vec<Node<'a>>)>, m: NodeView) -> Seq<Node<'a>> {
    if exists|i: int| #[trigger] first_source_entry(tn, i) && tn[i].0@ == m {
        tn[choose|i: int| #[trigger] first_source_entry(tn, i) && tn[i].0@ == m].1@
    } else {
        Seq::empty()
    }
}

impl<'a> TaintState<'a> {
    /// Whether `n` is tainted.
    #[verifier::inline]
    pub open spec fn is_tainted(&self, n: NodeView) -> bool {
        keyed(self.tainted_nodes@, n)
    }

    /// Whether `n` is a source of taint.
    #[verifier::inline]
    pub open spec fn is_source(&self, n: NodeView) -> bool {
        keyed(self.taint_sources@, n)
    }

    /// Nothing is tainted.
    pub fn new() -> (r: TaintState<'a>)
        ensures
            forall|n: NodeView| !r.is_tainted(n) && !r.is_source(n),
    {
        TaintState { taint_sources: Vec::new(), tainted_nodes: Vec::new() }
    }

    /// Forgets every taint.
    pub fn clear(&mut self)
        ensures
            forall|n: NodeView| !final(self).is_tainted(n) && !final(self).is_source(n),
    {
        self.taint_sources = Vec::new();
        self.tainted_nodes = Vec::new();
    }

    /// The sources of the taint of `n`, if it is tainted.
    pub fn sources_of(&self, n: &Node<'a>) -> (r: Option<Vec<Node<'a>>>)
        ensures
            r is Some <==> self.is_tainted(n@),
    {
        match entry_index(&self.tainted_nodes, n) {
            Some(i) => {
                let src = &self.tainted_nodes[i].1;
                let mut copy: Vec<Node<'a>> = Vec::new();
                let mut k: usize = 0;
                while k < src.len()
                    invariant
                        k <= src@.len(),
                    decreases src.len() - k,
                {
                    copy.push(src[k]);
                    k = k + 1;
                }
                Some(copy)
            },
            None => None,
        }
    }

    /// Whether `n` is tainted.
    pub fn tainted(&self, n: &Node<'a>) -> (r: bool)
        ensures
            r == self.is_tainted(n@),
    {
        entry_index(&self.tainted_nodes, n).is_some()
    }

    /// Sets the sources of the taint of `n`, in place of the ones it had.
    fn set_tainted(&mut self, n: Node<'a>, sources: Vec<Node<'a>>)
        ensures
            final(self).taint_sources == old(self).taint_sources,
            forall|m: NodeView| #[trigger] final(self).is_tainted(m) == (old(self).is_tainted(m) || m == n@),
    {
        let _ = remove_key(&mut self.tainted_nodes, &n);
        let ghost before = self.tainted_nodes@;
        self.tainted_nodes.push((n, sources));
        proof {
            assert forall|m: NodeView| #[trigger] keyed(self.tainted_nodes@, m) == (keyed(before, m) || m == n@) by {
                if keyed(self.tainted_nodes@, m) {
                    let i = choose|i: int| 0 <= i < self.tainted_nodes@.len() && (#[trigger] self.tainted_nodes@[i]).0@ == m;
                    if i < before.len() {
                        assert(before[i] == self.tainted_nodes@[i]);
                    }
                }
                if keyed(before, m) {
                    let i = choose|i: int| 0 <= i < before.len() && (#[trigger] before[i]).0@ == m;
                    assert(self.tainted_nodes@[i] == before[i]);
                }
                if m == n@ {
                    assert(self.tainted_nodes@[before.len() as int].0@ == m);
                }
            }
        }
    }

    /// Makes `n` a source of taint at `span`, tainted by itself alone.
    pub fn add_taint_source(&mut self, n: Node<'a>, span: Span)
        ensures
            final(self).is_tainted(n@),
            final(self).is_source(n@),
            forall|m: NodeView| #[trigger] final(self).is_tainted(m) == (old(self).is_tainted(m) || m == n@),
    {
        let _ = remove_key(&mut self.taint_sources, &n);
        self.taint_sources.push((n, TaintSource { span, children: Vec::new() }));
        proof {
            assert(self.taint_sources@[self.taint_sources@.len() - 1].0@ == n@);
        }
        let mut sources: Vec<Node<'a>> = Vec::new();
        sources.push(n);
        self.set_tainted(n, sources);
    }

    /// Records `n` as a child of each of `sources` that is a source of taint: the first
    /// entry of each such source gains `n` among its children; every entry keeps its node
    /// and its place.
    fn add_tainted_node_to_sources(&mut self, n: Node<'a>, sources: &Vec<Node<'a>>)
        ensures
            final(self).tainted_nodes == old(self).tainted_nodes,
            final(self).taint_sources@.len() == old(self).taint_sources@.len(),
            forall|i: int| 0 <= i < old(self).taint_sources@.len() ==> {
                &&& (#[trigger] final(self).taint_sources@[i]).0@ == old(self).taint_sources@[i].0@
                &&& final(self).taint_sources@[i].1.span == old(self).taint_sources@[i].1.span
                &&& children_set(final(self).taint_sources@[i].1) == if first_source_entry(
                    old(self).taint_sources@,
                    i,
                ) && nodes_view(sources@).contains(old(self).taint_sources@[i].0@) {
                    children_set(old(self).taint_sources@[i].1).insert(n@)
                } else {
                    children_set(old(self).taint_sources@[i].1)
                }
            },
    {
        let mut k: usize = 0;
        while k < sources.len()
            invariant
                k <= sources@.len(),
                self.tainted_nodes == old(self).tainted_nodes,
                self.taint_sources@.len() == old(self).taint_sources@.len(),
                forall|i: int| 0 <= i < old(self).taint_sources@.len() ==> {
                    &&& (#[trigger] self.taint_sources@[i]).0@ == old(self).taint_sources@[i].0@
                    &&& self.taint_sources@[i].1.span == old(self).taint_sources@[i].1.span
                    &&& children_set(self.taint_sources@[i].1) == if first_source_entry(
                        old(self).taint_sources@,
                        i,
                    ) && nodes_view(sources@.subrange(0, k as int)).contains(old(self).taint_sources@[i].0@) {
                        children_set(old(self).taint_sources@[i].1).insert(n@)
                    } else {
                        children_set(old(self).taint_sources@[i].1)
                    }
                },
            decreases sources.len() - k,
        {
            let ghost before = self.taint_sources@;
            let ghost a = nodes_view(sources@.subrange(0, k as int));
            let ghost b = nodes_view(sources@.subrange(0, k + 1));
            proof {
                assert(b =~= a.push(sources@[k as int]@));
            }
            match entry_index(&self.taint_sources, &sources[k]) {
                Some(i) => {
                    let mut entry = (sources[k], TaintSource { span: Span::zero(), children: Vec::new() });
                    std::mem::swap(&mut entry, &mut self.taint_sources[i]);
                    insert_node(&mut entry.1.children, n);
                    std::mem::swap(&mut entry, &mut self.taint_sources[i]);
                    proof {
                        assert(first_source_entry(old(self).taint_sources@, i as int)) by {
                            assert forall|j: int| 0 <= j < i implies (#[trigger] old(self).taint_sources@[j]).0@
                                != old(self).taint_sources@[i as int].0@ by {
                                assert(before[j].0@ == old(self).taint_sources@[j].0@);
                            }
                        }
                        assert forall|x: int| 0 <= x < old(self).taint_sources@.len() implies {
                            &&& (#[trigger] self.taint_sources@[x]).0@ == old(self).taint_sources@[x].0@
                            &&& self.taint_sources@[x].1.span == old(self).taint_sources@[x].1.span
                            &&& children_set(self.taint_sources@[x].1) == if first_source_entry(
                                old(self).taint_sources@,
                                x,
                            ) && b.contains(old(self).taint_sources@[x].0@) {
                                children_set(old(self).taint_sources@[x].1).insert(n@)
                            } else {
                                children_set(old(self).taint_sources@[x].1)
                            }
                        } by {
                            let key = old(self).taint_sources@[x].0@;
                            let c0 = children_set(old(self).taint_sources@[x].1);
                            assert(b.contains(key) == (a.contains(key) || key == sources@[k as int]@)) by {
                                if a.contains(key) {
                                    let w = choose|w: int| 0 <= w < a.len() && a[w] == key;
                                    assert(b[w] == a[w]);
                                }
                                if key == sources@[k as int]@ {
                                    assert(b[a.len() as int] == key);
                                }
                            }
                            assert(before[x].0@ == key);
                            if x != i {
                                assert(self.taint_sources@[x] == before[x]);
                                if first_source_entry(old(self).taint_sources@, x) && key == sources@[k as int]@ {
                                    lemma_first_source_unique(old(self).taint_sources@, x, i as int);
                                }
                            } else {
                                assert(children_set(self.taint_sources@[x].1) =~= children_set(before[x].1).insert(n@));
                                assert(children_set(before[x].1) == if a.contains(key) {
                                    c0.insert(n@)
                                } else {
                                    c0
                                });
                                assert(c0.insert(n@).insert(n@) =~= c0.insert(n@));
                            }
                        }
                    }
                },
                None => {
                    proof {
                        assert forall|x: int| 0 <= x < old(self).taint_sources@.len() implies {
                            &&& (#[trigger] self.taint_sources@[x]).0@ == old(self).taint_sources@[x].0@
                            &&& self.taint_sources@[x].1.span == old(self).taint_sources@[x].1.span
                            &&& children_set(self.taint_sources@[x].1) == if first_source_entry(
                                old(self).taint_sources@,
                                x,
                            ) && b.contains(old(self).taint_sources@[x].0@) {
                                children_set(old(self).taint_sources@[x].1).insert(n@)
                            } else {
                                children_set(old(self).taint_sources@[x].1)
                            }
                        } by {
                            let key = old(self).taint_sources@[x].0@;
                            assert(self.taint_sources@[x] == before[x]);
                            assert(before[x].0@ == key);
                            assert(before[x].0@ != sources@[k as int]@);
                            assert(b.contains(key) == a.contains(key)) by {
                                if a.contains(key) {
                                    let w = choose|w: int| 0 <= w < a.len() && a[w] == key;
                                    assert(b[w] == a[w]);
                                }
                                if b.contains(key) {
                                    let w = choose|w: int| 0 <= w < b.len() && b[w] == key;
                                    if w < a.len() {
                                        assert(b[w] == a[w]);
                                    }
                                }
                            }
                        }
                    }
                },
            }
            k = k + 1;
        }
        proof {
            assert(sources@.subrange(0, sources@.len() as int) =~= sources@);
        }
    }

    /// Taints `n` with `sources`.
    pub fn add_tainted(&mut self, n: Node<'a>, sources: Vec<Node<'a>>)
        ensures
            forall|m: NodeView| #[trigger] final(self).is_tainted(m) == (old(self).is_tainted(m) || m == n@),
    {
        self.add_tainted_node_to_sources(n, &sources);
        self.set_tainted(n, sources);
    }

    /// Taints the expression `expr` with `sources`.
    pub fn add_tainted_expr(&mut self, expr: &SymbolicExpression, sources: Vec<Node<'a>>)
        ensures
            forall|m: NodeView| #[trigger] final(self).is_tainted(m) == (old(self).is_tainted(m) || m == NodeView::Expr(expr.id)),
    {
        self.add_tainted(Node::Expr(expr.id), sources);
    }

    /// Removes `n` from the sources and the tainted nodes (a name going out of scope).
    pub fn remove_node(&mut self, n: &Node<'a>)
        ensures
            forall|m: NodeView| #[trigger] final(self).is_tainted(m) == (old(self).is_tainted(m) && m != n@),
            forall|m: NodeView| #[trigger] final(self).is_source(m) == (old(self).is_source(m) && m != n@),
    {
        let _ = remove_key(&mut self.taint_sources, n);
        let _ = remove_key(&mut self.tainted_nodes, n);
    }

    /// Clears the taint of `expr`, of its sources, and of what only they tainted: the
    /// data it uses has been checked. Nothing becomes tainted.
    pub fn filter_taint(&mut self, expr: &SymbolicExpression)
        ensures
            !final(self).is_tainted(NodeView::Expr(expr.id)),
            forall|m: NodeView| #[trigger] final(self).is_tainted(m) ==> old(self).is_tainted(m),
    {
        let node = Node::Expr(expr.id);
        let removed = remove_key(&mut self.tainted_nodes, &node);
        if let Some(sources) = removed {
            let mut k: usize = 0;
            while k < sources.len()
                invariant
                    k <= sources@.len(),
                    !self.is_tainted(NodeView::Expr(expr.id)),
                    forall|m: NodeView| #[trigger] self.is_tainted(m) ==> old(self).is_tainted(m),
                decreases sources.len() - k,
            {
                let source_node = sources[k];
                if let Some(source) = remove_key(&mut self.taint_sources, &source_node) {
                    let _ = remove_key(&mut self.tainted_nodes, &source_node);
                    let mut c: usize = 0;
                    while c < source.children.len()
                        invariant
                            c <= source.children@.len(),
                            !self.is_tainted(NodeView::Expr(expr.id)),
                            forall|m: NodeView| #[trigger] self.is_tainted(m) ==> old(self).is_tainted(m),
                        decreases source.children.len() - c,
                    {
                        let child = source.children[c];
                        if let Some(mut child_sources) = remove_key(&mut self.tainted_nodes, &child) {
                            if let Some(pos) = node_index(&child_sources, &source_node) {
                                child_sources.remove(pos);
                            }
                            if child_sources.len() > 0 {
                                self.set_tainted(child, child_sources);
                            }
                        }
                        c = c + 1;
                    }
                }
                k = k + 1;
            }
        }
    }

    /// The places of the sources of the taint of `expr`, in order.
    pub fn source_spans(&self, expr: &SymbolicExpression) -> (r: Vec<Span>)
        ensures
            forall|i: int, j: int| 0 <= i < j < r@.len() ==> !span_less(r@[j], r@[i]),
            r@.to_multiset() == places_of(self.taint_sources@, sources_in(self.tainted_nodes@, NodeView::Expr(expr.id))),
    {
        let mut spans: Vec<Span> = Vec::new();
        let ghost m = NodeView::Expr(expr.id);
        proof {
            assert(spans@.to_multiset() =~= vstd::multiset::Multiset::empty()) by {
                broadcast use vstd::seq_lib::group_to_multiset_ensures;
            }
        }
        match entry_index(&self.tainted_nodes, &Node::Expr(expr.id)) {
            Some(i) => {
                proof {
                    assert(first_source_entry(self.tainted_nodes@, i as int));
                    let c = choose|c: int| #[trigger] first_source_entry(self.tainted_nodes@, c) && self.tainted_nodes@[c].0@ == m;
                    lemma_first_source_unique(self.tainted_nodes@, i as int, c);
                }
                let sources = &self.tainted_nodes[i].1;
                let mut k: usize = 0;
                proof {
                    assert(sources@.subrange(0, 0) =~= Seq::<Node<'a>>::empty());
                }
                while k < sources.len()
                    invariant
                        k <= sources@.len(),
                        forall|a: int, b: int| 0 <= a < b < spans@.len() ==> !span_less(spans@[b], spans@[a]),
                        spans@.to_multiset() == places_of(self.taint_sources@, sources@.subrange(0, k as int)),
                    decreases sources.len() - k,
                {
                    let ghost prefix = sources@.subrange(0, k + 1);
                    proof {
                        assert(prefix.drop_last() =~= sources@.subrange(0, k as int));
                        assert(prefix.last() == sources@[k as int]);
                    }
                    match entry_index(&self.taint_sources, &sources[k]) {
                        Some(s) => {
                            let span = self.taint_sources[s].1.span;
                            proof {
                                let key = sources@[k as int]@;
                                assert(first_source_entry(self.taint_sources@, s as int));
                                let c = choose|c: int| #[trigger] first_source_entry(self.taint_sources@, c)
                                    && self.taint_sources@[c].0@ == key;
                                lemma_first_source_unique(self.taint_sources@, s as int, c);
                                assert(source_place(self.taint_sources@, key) == Some(span));
                            }
                            insert_sorted(&mut spans, span);
                        },
                        None => {
                            proof {
                                let key = sources@[k as int]@;
                                assert(source_place(self.taint_sources@, key) is None);
                            }
                        },
                    }
                    k = k + 1;
                }
                proof {
                    assert(sources@.subrange(0, sources@.len() as int) =~= sources@);
                }
            },
            None => {
                proof {
                    assert(sources_in(self.tainted_nodes@, m) =~= Seq::<Node<'a>>::empty());
                }
            },
        }
        spans
    }
}

/// Inserts `span` into the sorted list `spans`, after the spans that do not come after it.
pub fn insert_sorted(spans: &mut Vec<Span>, span: Span)
    requires
        forall|a: int, b: int| 0 <= a < b < old(spans)@.len() ==> !span_less(old(spans)@[b], old(spans)@[a]),
    ensures
        forall|a: int, b: int| 0 <= a < b < final(spans)@.len() ==> !span_less(final(spans)@[b], final(spans)@[a]),
        final(spans)@.len() == old(spans)@.len() + 1,
        final(spans)@.contains(span),
        final(spans)@.to_multiset() == old(spans)@.to_multiset().insert(span),
{
    let mut pos: usize = 0;
    while pos < spans.len() && !span_lt(&span, &spans[pos])
        invariant
            pos <= spans@.len(),
            forall|k: int| 0 <= k < pos ==> !span_less(span, #[trigger] spans@[k]),
        decreases spans.len() - pos,
    {
        pos = pos + 1;
    }
    let ghost before = spans@;
    spans.insert(pos, span);
    proof {
        vstd::seq_lib::to_multiset_insert(before, pos as int, span);
        assert(spans@[pos as int] == span);
        assert forall|a: int, b: int| 0 <= a < b < spans@.len() implies !span_less(spans@[b], spans@[a]) by {
            lemma_span_order(span, before, pos as int, a, b, spans@);
        }
    }
}

proof fn lemma_span_order(span: Span, before: Seq<Span>, pos: int, a: int, b: int, after: Seq<Span>)
    requires
        0 <= pos <= before.len(),
        after == before.insert(pos, span),
        forall|x: int, y: int| 0 <= x < y < before.len() ==> !span_less(before[y], before[x]),
        forall|k: int| 0 <= k < pos ==> !span_less(span, #[trigger] before[k]),
        pos < before.len() ==> span_less(span, before[pos]),
        0 <= a < b < after.len(),
    ensures
        !span_less(after[b], after[a]),
{
    if a < pos && b < pos {
        assert(after[a] == before[a] && after[b] == before[b]);
    } else if a < pos && b == pos {
        assert(after[a] == before[a]);
    } else if a < pos {
        assert(after[a] == before[a] && after[b] == before[b - 1]);
    } else if a == pos {
        assert(after[b] == before[b - 1]);
        assert(!span_less(before[b - 1], before[pos]));
    } else {
        assert(after[a] == before[a - 1] && after[b] == before[b - 1]);
    }
}

} // verus!
