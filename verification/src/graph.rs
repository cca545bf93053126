//! A directed multigraph over integer node indices, and the minimal
//! topological sort that orders everything a chosen node depends on.
//!
//! An edge `u -> v` reads "`v` instantiates `u`": `u` has to be compiled
//! before `v`.

use vstd::prelude::*;

verus! {

/// What can go wrong while a design is indexed, its targets are chosen and
/// its units are ordered.
#[derive(Debug, PartialEq, Eq)]
pub enum GraphError {
    /// The named unit is declared in two different files.
    DuplicateUnit(String),
    /// No testbench could be chosen; the candidates are listed by node index.
    AmbiguousBench(Vec<usize>),
    /// The testbench instantiates several units; they are listed by node index.
    AmbiguousTop(Vec<usize>),
    /// The testbench instantiates no unit.
    NoTop,
    /// The units needed by the root instantiate each other in a circle.
    CyclicDesign,
    /// No unit has the requested name.
    UnknownUnit(String),
    /// The unit requested as testbench is not one.
    NotTestbench(String),
    /// The unit requested as top is a testbench.
    IsTestbench(String),
}

/// The mathematical value of a `GraphError`.
pub enum GraphErrorView {
    DuplicateUnit(Seq<char>),
    AmbiguousBench(Seq<int>),
    AmbiguousTop(Seq<int>),
    NoTop,
    CyclicDesign,
    UnknownUnit(Seq<char>),
    NotTestbench(Seq<char>),
    IsTestbench(Seq<char>),
}

impl GraphError {
    /// The mathematical value.
    pub open spec fn view(&self) -> GraphErrorView {
        match self {
            GraphError::DuplicateUnit(s) => GraphErrorView::DuplicateUnit(s@),
            GraphError::AmbiguousBench(c) => GraphErrorView::AmbiguousBench(ints(c@)),
            GraphError::AmbiguousTop(c) => GraphErrorView::AmbiguousTop(ints(c@)),
            GraphError::NoTop => GraphErrorView::NoTop,
            GraphError::CyclicDesign => GraphErrorView::CyclicDesign,
            GraphError::UnknownUnit(s) => GraphErrorView::UnknownUnit(s@),
            GraphError::NotTestbench(s) => GraphErrorView::NotTestbench(s@),
            GraphError::IsTestbench(s) => GraphErrorView::IsTestbench(s@),
        }
    }
}

/// The mathematical graph: a node count and the edges in insertion order.
pub struct GraphView {
    pub nodes: nat,
    pub edges: Seq<(int, int)>,
}

/// `v` occurs among the first `k` items of `o`.
pub open spec fn placed_before(o: Seq<int>, k: int, v: int) -> bool {
    exists|i: int| 0 <= i < k && i < o.len() && #[trigger] o[i] == v
}

impl GraphView {
    /// The edge joins two nodes of the graph.
    pub open spec fn valid_edge(self, e: (int, int)) -> bool {
        0 <= e.0 < self.nodes && 0 <= e.1 < self.nodes
    }

    /// Every edge joins two nodes of the graph.
    pub open spec fn wf(self) -> bool {
        forall|i: int| 0 <= i < self.edges.len() ==> self.valid_edge(#[trigger] self.edges[i])
    }

    /// At least one edge leads from `u` to `v`.
    pub open spec fn has_edge(self, u: int, v: int) -> bool {
        self.edges.contains((u, v))
    }

    /// `p` walks along edges from its first node to its last.
    pub open spec fn is_path(self, p: Seq<int>) -> bool {
        &&& p.len() > 0
        &&& forall|i: int| 0 <= i < p.len() - 1 ==> self.has_edge(#[trigger] p[i], p[i + 1])
    }

    /// `v` can be reached from `u` along edges; every node reaches itself.
    pub open spec fn reaches(self, u: int, v: int) -> bool {
        exists|p: Seq<int>| #[trigger] self.is_path(p) && p[0] == u && p.last() == v
    }

    /// `v` is a node that `root` depends on, directly or not, or `root` itself.
    pub open spec fn is_ancestor(self, v: int, root: int) -> bool {
        0 <= v < self.nodes && self.reaches(v, root)
    }

    /// `v` is instantiated by `u` (`v -> u`) for no node but those placed
    /// among the first `k` items of `o`: every predecessor of `v` is placed.
    pub open spec fn ready_at(self, o: Seq<int>, k: int, v: int) -> bool {
        forall|u: int| #[trigger] self.has_edge(u, v) ==> placed_before(o, k, u)
    }

    /// `o` lists each ancestor of `root` once, nothing else, and every edge
    /// between two listed nodes points forward.
    pub open spec fn is_topological_order(self, root: int, o: Seq<int>) -> bool {
        &&& o.no_duplicates()
        &&& forall|v: int| #[trigger] o.contains(v) <==> self.is_ancestor(v, root)
        &&& forall|i: int, j: int|
            0 <= i < o.len() && 0 <= j < o.len() && #[trigger] self.has_edge(o[i], o[j]) ==> i < j
    }

    /// At every position the smallest node index that could be placed there
    /// was placed: a smaller ancestor that is still missing waits for one of
    /// its predecessors.
    pub open spec fn breaks_ties_by_index(self, root: int, o: Seq<int>) -> bool {
        forall|k: int, j: int|
            0 <= k < o.len() && 0 <= j < o[k] && self.is_ancestor(j, root) && !placed_before(
                o,
                k,
                j,
            ) ==> !#[trigger] self.ready_at(o, k, j)
    }

    /// The ordering that the minimal topological sort rooted at `root` returns.
    pub open spec fn is_minimal_topological_sort(self, root: int, o: Seq<int>) -> bool {
        &&& self.is_topological_order(root, o)
        &&& self.breaks_ties_by_index(root, o)
    }

    /// The nodes needed by `root` cannot be ordered: some of them instantiate
    /// each other in a circle.
    pub open spec fn is_cyclic_below(self, root: int) -> bool {
        forall|o: Seq<int>| !self.is_topological_order(root, o)
    }

    /// `c` is a circle of instantiations among the nodes that `root` depends
    /// on: a way of one edge at least from a node that `root` needs back to
    /// it.
    pub open spec fn is_circle_below(self, root: int, c: Seq<int>) -> bool {
        &&& self.is_path(c)
        &&& c.len() >= 2
        &&& c[0] == c.last()
        &&& self.reaches(c[0], root)
    }

    /// Some of the nodes that `root` depends on instantiate each other in a
    /// circle.
    pub open spec fn has_circle_below(self, root: int) -> bool {
        exists|c: Seq<int>| #[trigger] self.is_circle_below(root, c)
    }

    /// The distinct nodes with an edge into `v`, in ascending order.
    pub open spec fn is_predecessor_list(self, v: int, s: Seq<int>) -> bool {
        &&& forall|i: int, j: int| 0 <= i < j < s.len() ==> s[i] < s[j]
        &&& forall|u: int| #[trigger] s.contains(u) <==> self.has_edge(u, v)
    }

    /// The distinct nodes with an edge out of `u`, in ascending order.
    pub open spec fn is_successor_list(self, u: int, s: Seq<int>) -> bool {
        &&& forall|i: int, j: int| 0 <= i < j < s.len() ==> s[i] < s[j]
        &&& forall|v: int| #[trigger] s.contains(v) <==> self.has_edge(u, v)
    }
}

/// The node indices of `s` as mathematical integers.
pub open spec fn ints(s: Seq<usize>) -> Seq<int> {
    Seq::new(s.len(), |i: int| s[i] as int)
}

/// An edge `u -> v` followed by a way from `v` to `w` is a way from `u` to `w`.
pub proof fn lemma_reaches_step(g: GraphView, u: int, v: int, w: int)
    requires
        g.has_edge(u, v),
        g.reaches(v, w),
    ensures
        g.reaches(u, w),
{
    let p = choose|p: Seq<int>| #[trigger] g.is_path(p) && p[0] == v && p.last() == w;
    let q = seq![u] + p;
    assert forall|i: int| 0 <= i < q.len() - 1 implies g.has_edge(#[trigger] q[i], q[i + 1]) by {
        if i == 0 {
            assert(q[0] == u && q[1] == p[0]);
        } else {
            assert(q[i] == p[i - 1] && q[i + 1] == p[i]);
        }
    }
    assert(g.is_path(q) && q[0] == u && q.last() == w);
}

/// Every node reaches itself.
pub proof fn lemma_reaches_self(g: GraphView, v: int)
    ensures
        g.reaches(v, v),
{
    let p = seq![v];
    assert(g.is_path(p) && p[0] == v && p.last() == v);
}

/// A set of nodes that holds `root` and, with a node, all its predecessors
/// holds every node that reaches `root`.
pub proof fn lemma_closed_holds_ancestors(g: GraphView, root: int, marked: Seq<bool>, v: int)
    requires
        g.wf(),
        marked.len() == g.nodes,
        0 <= root < g.nodes,
        marked[root],
        forall|k: int|
            0 <= k < g.edges.len() && marked[(#[trigger] g.edges[k]).1] ==> marked[g.edges[k].0],
        g.reaches(v, root),
    ensures
        0 <= v < g.nodes,
        marked[v],
{
    let p = choose|p: Seq<int>| #[trigger] g.is_path(p) && p[0] == v && p.last() == root;
    lemma_path_marked(g, root, marked, p, 0);
}

proof fn lemma_path_marked(g: GraphView, root: int, marked: Seq<bool>, p: Seq<int>, at: int)
    requires
        g.wf(),
        marked.len() == g.nodes,
        0 <= root < g.nodes,
        marked[root],
        forall|k: int|
            0 <= k < g.edges.len() && marked[(#[trigger] g.edges[k]).1] ==> marked[g.edges[k].0],
        g.is_path(p),
        p.last() == root,
        0 <= at < p.len(),
    ensures
        0 <= p[at] < g.nodes,
        marked[p[at]],
    decreases p.len() - at,
{
    if at == p.len() - 1 {
    } else {
        lemma_path_marked(g, root, marked, p, at + 1);
        assert(g.has_edge(p[at], p[at + 1]));
        let k = choose|k: int| 0 <= k < g.edges.len() && g.edges[k] == (p[at], p[at + 1]);
        assert(g.valid_edge(g.edges[k]));
        assert(marked[g.edges[k].1]);
    }
}

/// Distinct numbers from zero up to, not including, `n` are at most `n`
/// many.
pub proof fn lemma_distinct_ints_bounded(s: Seq<int>, n: nat)
    requires
        s.no_duplicates(),
        forall|i: int| 0 <= i < s.len() ==> 0 <= #[trigger] s[i] < n,
    ensures
        s.len() <= n,
    decreases n,
{
    if s.len() == 0 {
    } else if n == 0 {
        assert(0 <= s[0] < n);
    } else {
        if exists|i: int| 0 <= i < s.len() && s[i] == n - 1 {
            let i = choose|i: int| 0 <= i < s.len() && s[i] == n - 1;
            let t = s.remove(i);
            assert forall|a: int, b: int| 0 <= a < t.len() && 0 <= b < t.len() && a != b implies t[a]
                != t[b] by {
                let a0 = if a < i { a } else { a + 1 };
                let b0 = if b < i { b } else { b + 1 };
                assert(t[a] == s[a0] && t[b] == s[b0]);
            }
            assert forall|a: int| 0 <= a < t.len() implies 0 <= #[trigger] t[a] < (n - 1) as nat by {
                let a0 = if a < i { a } else { a + 1 };
                assert(t[a] == s[a0]);
                assert(0 <= s[a0] < n);
            }
            lemma_distinct_ints_bounded(t, (n - 1) as nat);
        } else {
            assert forall|a: int| 0 <= a < s.len() implies 0 <= #[trigger] s[a] < (n - 1) as nat by {
                assert(0 <= s[a] < n);
            }
            lemma_distinct_ints_bounded(s, (n - 1) as nat);
        }
    }
}

/// Distinct indices below `n` are at most `n` many.
pub proof fn lemma_distinct_bounded(s: Seq<usize>, n: nat)
    requires
        s.no_duplicates(),
        forall|i: int| 0 <= i < s.len() ==> s[i] < n,
    ensures
        s.len() <= n,
{
    let t = ints(s);
    assert forall|a: int, b: int| 0 <= a < t.len() && 0 <= b < t.len() && a != b implies t[a]
        != t[b] by {
        assert(s[a] != s[b]);
    }
    assert forall|i: int| 0 <= i < t.len() implies 0 <= #[trigger] t[i] < n by {
        assert(s[i] < n);
    }
    lemma_distinct_ints_bounded(t, n);
}

/// When every ancestor of `root` that `placed` leaves out waits for a
/// predecessor that `placed` leaves out too, and one such ancestor exists,
/// its ancestors cannot be ordered.
pub proof fn lemma_stuck_is_cyclic(g: GraphView, root: int, placed: Seq<bool>, w: int)
    requires
        g.wf(),
        placed.len() == g.nodes,
        g.is_ancestor(w, root),
        !placed[w],
        forall|v: int|
            g.is_ancestor(v, root) && !placed[v] ==> exists|u: int|
                0 <= u < g.nodes && !placed[u] && #[trigger] g.has_edge(u, v),
    ensures
        g.is_cyclic_below(root),
{
    assert forall|o: Seq<int>| !g.is_topological_order(root, o) by {
        if g.is_topological_order(root, o) {
            assert(o.contains(w));
            let i = choose|i: int| 0 <= i < o.len() && o[i] == w;
            lemma_none_waiting(g, root, placed, o, i + 1);
        }
    }
}

proof fn lemma_none_waiting(g: GraphView, root: int, placed: Seq<bool>, o: Seq<int>, k: int)
    requires
        g.wf(),
        placed.len() == g.nodes,
        g.is_topological_order(root, o),
        forall|v: int|
            g.is_ancestor(v, root) && !placed[v] ==> exists|u: int|
                0 <= u < g.nodes && !placed[u] && #[trigger] g.has_edge(u, v),
        0 <= k <= o.len(),
    ensures
        forall|i: int| 0 <= i < k ==> placed[#[trigger] o[i]],
    decreases k,
{
    if k > 0 {
        lemma_none_waiting(g, root, placed, o, k - 1);
        let v = o[k - 1];
        assert(o.contains(v));
        if !placed[v] {
            let u = choose|u: int| 0 <= u < g.nodes && !placed[u] && #[trigger] g.has_edge(u, v);
            lemma_reaches_step(g, u, v, root);
            assert(g.is_ancestor(u, root));
            assert(o.contains(u));
            let j = choose|j: int| 0 <= j < o.len() && o[j] == u;
            assert(g.has_edge(o[j], o[k - 1]));
            assert(j < k - 1);
        }
    }
}

/// In a topological order every listed node comes after all its predecessors.
pub proof fn lemma_listed_after_predecessors(g: GraphView, root: int, o: Seq<int>, k: int)
    requires
        g.wf(),
        g.is_topological_order(root, o),
        0 <= k < o.len(),
    ensures
        g.ready_at(o, k, o[k]),
{
    assert forall|u: int| #[trigger] g.has_edge(u, o[k]) implies placed_before(o, k, u) by {
        assert(o.contains(o[k]));
        lemma_reaches_step(g, u, o[k], root);
        let e = choose|e: int| 0 <= e < g.edges.len() && g.edges[e] == (u, o[k]);
        assert(g.valid_edge(g.edges[e]));
        assert(g.is_ancestor(u, root));
        assert(o.contains(u));
        let j = choose|j: int| 0 <= j < o.len() && o[j] == u;
        assert(g.has_edge(o[j], o[k]));
        assert(j < k);
    }
}

/// The root comes last in every topological order of its ancestors.
pub proof fn lemma_root_is_last(g: GraphView, root: int, o: Seq<int>)
    requires
        g.wf(),
        0 <= root < g.nodes,
        g.is_topological_order(root, o),
    ensures
        o.len() > 0,
        o.last() == root,
{
    lemma_reaches_self(g, root);
    assert(o.contains(root));
    let r = choose|r: int| 0 <= r < o.len() && o[r] == root;
    let last = o.len() - 1;
    if r != last {
        assert(o.contains(o[last]));
        let p = choose|p: Seq<int>| #[trigger] g.is_path(p) && p[0] == o[last] && p.last() == root;
        lemma_path_climbs(g, root, o, p, p.len() - 1);
    }
}

/// Along a path that ends in `root` the positions in a topological order
/// only grow.
proof fn lemma_path_climbs(g: GraphView, root: int, o: Seq<int>, p: Seq<int>, at: int)
    requires
        g.wf(),
        g.is_topological_order(root, o),
        g.is_path(p),
        p.last() == root,
        0 <= at < p.len(),
    ensures
        forall|a: int, b: int|
            0 <= a < o.len() && 0 <= b < o.len() && o[a] == p[0] && o[b] == p[at] ==> a <= b,
        0 <= p[0] < g.nodes || p.len() == 1,
    decreases at,
{
    if at > 0 {
        lemma_path_climbs(g, root, o, p, at - 1);
        assert(g.has_edge(p[at - 1], p[at]));
        let e = choose|e: int| 0 <= e < g.edges.len() && g.edges[e] == (p[at - 1], p[at]);
        assert(g.valid_edge(g.edges[e]));
        assert(g.has_edge(p[0], p[1]));
        let e0 = choose|e0: int| 0 <= e0 < g.edges.len() && g.edges[e0] == (p[0], p[1]);
        assert(g.valid_edge(g.edges[e0]));
        lemma_suffix_reaches(g, p, at - 1);
        assert(g.is_ancestor(p[at - 1], root));
        assert(o.contains(p[at - 1]));
        let c = choose|c: int| 0 <= c < o.len() && o[c] == p[at - 1];
        assert forall|a: int, b: int|
            0 <= a < o.len() && 0 <= b < o.len() && o[a] == p[0] && o[b] == p[at] implies a <= b by {
            assert(g.has_edge(o[c], o[b]));
        }
    } else {
        assert forall|a: int, b: int|
            0 <= a < o.len() && 0 <= b < o.len() && o[a] == p[0] && o[b] == p[at] implies a <= b by {
            if a != b {
                assert(o[a] != o[b]);
            }
        }
    }
}

/// Every node of a path reaches the path's last node.
proof fn lemma_suffix_reaches(g: GraphView, p: Seq<int>, at: int)
    requires
        g.is_path(p),
        0 <= at < p.len(),
    ensures
        g.reaches(p[at], p.last()),
{
    let q = p.subrange(at, p.len() as int);
    assert forall|i: int| 0 <= i < q.len() - 1 implies g.has_edge(#[trigger] q[i], q[i + 1]) by {
        assert(g.has_edge(p[at + i], p[at + i + 1]));
    }
    assert(g.is_path(q) && q[0] == p[at] && q.last() == p.last());
}

/// Two ways, one after the other, are a way.
pub proof fn lemma_reaches_transitive(g: GraphView, u: int, v: int, w: int)
    requires
        g.reaches(u, v),
        g.reaches(v, w),
    ensures
        g.reaches(u, w),
{
    let p = choose|p: Seq<int>| #[trigger] g.is_path(p) && p[0] == u && p.last() == v;
    let q = choose|q: Seq<int>| #[trigger] g.is_path(q) && q[0] == v && q.last() == w;
    let r = p + q.subrange(1, q.len() as int);
    assert forall|i: int| 0 <= i < r.len() - 1 implies g.has_edge(#[trigger] r[i], r[i + 1]) by {
        if i < p.len() - 1 {
            assert(g.has_edge(p[i], p[i + 1]));
        } else {
            let j = i - p.len() + 1;
            assert(g.has_edge(q[j], q[j + 1]));
            assert(r[i + 1] == q[j + 1]);
            if i == p.len() - 1 {
                assert(r[i] == p.last());
            } else {
                assert(r[i] == q[j]);
            }
        }
    }
    assert(g.is_path(r) && r[0] == u && r.last() == w);
}

/// A circle of instantiations among the nodes that `root` depends on
/// leaves them without an order: where a way of one edge at least leads
/// from a node that `root` needs back to it, the sort rooted at `root`
/// fails.
pub proof fn lemma_circle_is_cyclic(g: GraphView, root: int, circle: Seq<int>)
    requires
        g.wf(),
        g.is_circle_below(root, circle),
    ensures
        g.is_cyclic_below(root),
{
    assert forall|o: Seq<int>| !g.is_topological_order(root, o) by {
        if g.is_topological_order(root, o) {
            let v = circle[0];
            assert(g.has_edge(circle[0], circle[1]));
            let e = choose|e: int| 0 <= e < g.edges.len() && g.edges[e] == (circle[0], circle[1]);
            assert(g.valid_edge(g.edges[e]));
            assert(g.is_ancestor(v, root));
            assert(o.contains(v));
            let at = choose|at: int| 0 <= at < o.len() && o[at] == v;
            // the node before the last on the circle is needed too, and
            // stands before the first and behind it
            let last = circle.len() - 2;
            lemma_circle_climbs(g, root, o, circle, last);
            assert(g.has_edge(circle[last], circle[last + 1]));
            lemma_suffix_reaches(g, circle, last);
            lemma_reaches_transitive(g, circle[last], v, root);
            let e2 = choose|e2: int|
                0 <= e2 < g.edges.len() && g.edges[e2] == (circle[last], circle[last + 1]);
            assert(g.valid_edge(g.edges[e2]));
            assert(g.is_ancestor(circle[last], root));
            assert(o.contains(circle[last]));
            let b = choose|b: int| 0 <= b < o.len() && o[b] == circle[last];
            assert(g.has_edge(o[b], o[at]));
        }
    }
}

/// Along a circle whose nodes `root` needs, the places in a topological
/// order do not fall behind the place of the first node.
proof fn lemma_circle_climbs(g: GraphView, root: int, o: Seq<int>, circle: Seq<int>, upto: int)
    requires
        g.wf(),
        g.is_topological_order(root, o),
        g.is_path(circle),
        circle.len() >= 2,
        circle[0] == circle.last(),
        g.reaches(circle[0], root),
        0 <= upto < circle.len() - 1,
    ensures
        forall|a: int, b: int|
            0 <= a < o.len() && 0 <= b < o.len() && o[a] == circle[0] && o[b] == circle[upto] ==> a
                <= b,
    decreases upto,
{
    if upto > 0 {
        lemma_circle_climbs(g, root, o, circle, upto - 1);
        assert(g.has_edge(circle[upto - 1], circle[upto]));
        lemma_suffix_reaches(g, circle, upto - 1);
        lemma_reaches_transitive(g, circle[upto - 1], circle[0], root);
        let e = choose|e: int|
            0 <= e < g.edges.len() && g.edges[e] == (circle[upto - 1], circle[upto]);
        assert(g.valid_edge(g.edges[e]));
        assert(g.is_ancestor(circle[upto - 1], root));
        assert(o.contains(circle[upto - 1]));
        let c = choose|c: int| 0 <= c < o.len() && o[c] == circle[upto - 1];
        assert forall|a: int, b: int|
            0 <= a < o.len() && 0 <= b < o.len() && o[a] == circle[0] && o[b]
                == circle[upto] implies a <= b by {
            assert(g.has_edge(o[c], o[b]));
        }
    } else {
        assert forall|a: int, b: int|
            0 <= a < o.len() && 0 <= b < o.len() && o[a] == circle[0] && o[b]
                == circle[upto] implies a <= b by {
            if a != b {
                assert(o[a] != o[b]);
            }
        }
    }
}

/// The node that is reached from `w` by `k` steps against the edges, each
/// to a predecessor that `placed` leaves out.
pub open spec fn step_back(g: GraphView, placed: Seq<bool>, w: int, k: nat) -> int
    decreases k,
{
    if k == 0 {
        w
    } else {
        let v = step_back(g, placed, w, (k - 1) as nat);
        choose|u: int| 0 <= u < g.nodes && !placed[u] && #[trigger] g.has_edge(u, v)
    }
}

/// Where every ancestor that is left out waits for a predecessor that is
/// left out, every step back from one of them leads to another.
proof fn lemma_step_back(g: GraphView, root: int, placed: Seq<bool>, w: int, k: nat)
    requires
        g.wf(),
        placed.len() == g.nodes,
        g.is_ancestor(w, root),
        !placed[w],
        forall|v: int|
            g.is_ancestor(v, root) && !placed[v] ==> exists|u: int|
                0 <= u < g.nodes && !placed[u] && #[trigger] g.has_edge(u, v),
    ensures
        g.is_ancestor(step_back(g, placed, w, k), root),
        !placed[step_back(g, placed, w, k)],
        k > 0 ==> g.has_edge(
            step_back(g, placed, w, k),
            step_back(g, placed, w, (k - 1) as nat),
        ),
    decreases k,
{
    if k > 0 {
        lemma_step_back(g, root, placed, w, (k - 1) as nat);
        let v = step_back(g, placed, w, (k - 1) as nat);
        let u = step_back(g, placed, w, k);
        assert(exists|u: int| 0 <= u < g.nodes && !placed[u] && #[trigger] g.has_edge(u, v));
        lemma_reaches_step(g, u, v, root);
    }
}

/// When every ancestor of `root` that `placed` leaves out waits for a
/// predecessor that `placed` leaves out too, and one such ancestor exists,
/// some of the ancestors instantiate each other in a circle.
pub proof fn lemma_stuck_has_circle(g: GraphView, root: int, placed: Seq<bool>, w: int)
    requires
        g.wf(),
        placed.len() == g.nodes,
        g.is_ancestor(w, root),
        !placed[w],
        forall|v: int|
            g.is_ancestor(v, root) && !placed[v] ==> exists|u: int|
                0 <= u < g.nodes && !placed[u] && #[trigger] g.has_edge(u, v),
    ensures
        g.has_circle_below(root),
{
    let n = g.nodes;
    let walk = Seq::new(n + 1, |k: int| step_back(g, placed, w, k as nat));
    assert forall|k: int| 0 <= k < walk.len() implies 0 <= #[trigger] walk[k] < n by {
        lemma_step_back(g, root, placed, w, k as nat);
    }
    if walk.no_duplicates() {
        lemma_distinct_ints_bounded(walk, n);
    }
    let (i, j) = choose|i: int, j: int|
        0 <= i < walk.len() && 0 <= j < walk.len() && i != j && walk[i] == walk[j];
    let lo = if i < j {
        i
    } else {
        j
    };
    let hi = if i < j {
        j
    } else {
        i
    };
    let c = Seq::new((hi - lo + 1) as nat, |t: int| step_back(g, placed, w, (hi - t) as nat));
    assert forall|t: int| 0 <= t < c.len() - 1 implies g.has_edge(#[trigger] c[t], c[t + 1]) by {
        lemma_step_back(g, root, placed, w, (hi - t) as nat);
    }
    lemma_step_back(g, root, placed, w, hi as nat);
    assert(c[0] == step_back(g, placed, w, hi as nat));
    assert(c.last() == step_back(g, placed, w, lo as nat));
    assert(walk[lo] == walk[hi]);
    assert(g.is_circle_below(root, c));
}

/// Two orders that both are the minimal topological sort rooted at `root`
/// are the same: the sort has one result.
pub proof fn lemma_minimal_sort_unique(g: GraphView, root: int, a: Seq<int>, b: Seq<int>)
    requires
        g.wf(),
        g.is_minimal_topological_sort(root, a),
        g.is_minimal_topological_sort(root, b),
    ensures
        a == b,
{
    a.unique_seq_to_set();
    b.unique_seq_to_set();
    assert(a.to_set() =~= b.to_set()) by {
        assert forall|x: int| a.to_set().contains(x) <==> b.to_set().contains(x) by {
            assert(a.contains(x) <==> g.is_ancestor(x, root));
            assert(b.contains(x) <==> g.is_ancestor(x, root));
        }
    }
    lemma_same_prefix(g, root, a, b, a.len() as int);
    assert(a =~= b);
}

proof fn lemma_same_prefix(g: GraphView, root: int, a: Seq<int>, b: Seq<int>, k: int)
    requires
        g.wf(),
        g.is_minimal_topological_sort(root, a),
        g.is_minimal_topological_sort(root, b),
        a.len() == b.len(),
        0 <= k <= a.len(),
    ensures
        forall|i: int| 0 <= i < k ==> a[i] == b[i],
    decreases k,
{
    if k > 0 {
        lemma_same_prefix(g, root, a, b, k - 1);
        let at = k - 1;
        lemma_not_smaller(g, root, a, b, at);
        lemma_not_smaller(g, root, b, a, at);
    }
}

/// Of two minimal sorts that agree before `at`, the first places no smaller
/// node at `at` than the second.
proof fn lemma_not_smaller(g: GraphView, root: int, a: Seq<int>, b: Seq<int>, at: int)
    requires
        g.wf(),
        g.is_minimal_topological_sort(root, a),
        g.is_minimal_topological_sort(root, b),
        a.len() == b.len(),
        0 <= at < a.len(),
        forall|i: int| 0 <= i < at ==> a[i] == b[i],
    ensures
        b[at] <= a[at],
{
    let x = a[at];
    if x < b[at] {
        assert(a.contains(x));
        assert(g.is_ancestor(x, root));
        lemma_listed_after_predecessors(g, root, a, at);
        assert forall|u: int| #[trigger] g.has_edge(u, x) implies placed_before(b, at, u) by {
            assert(placed_before(a, at, u));
            let i = choose|i: int| 0 <= i < at && i < a.len() && a[i] == u;
            assert(b[i] == u);
        }
        assert(g.ready_at(b, at, x));
        if placed_before(b, at, x) {
            let i = choose|i: int| 0 <= i < at && i < b.len() && b[i] == x;
            assert(a[i] == a[at]);
        }
    }
}

/// A directed multigraph whose nodes are numbered from zero in the order in
/// which they were added.
#[derive(Debug, PartialEq, Eq)]
pub struct Graph {
    nodes: usize,
    edges: Vec<(usize, usize)>,
}

impl Graph {
    /// The mathematical value.
    pub closed spec fn view(&self) -> GraphView {
        GraphView {
            nodes: self.nodes as nat,
            edges: Seq::new(
                self.edges@.len(),
                |i: int| (self.edges@[i].0 as int, self.edges@[i].1 as int),
            ),
        }
    }

    /// Every edge joins two nodes of the graph. Graphs made by `new`,
    /// `add_node` and `add_edge` are well formed.
    pub open spec fn wf(&self) -> bool {
        self@.wf()
    }

    proof fn lemma_endpoints(&self)
        requires
            self.wf(),
        ensures
            forall|i: int|
                0 <= i < self.edges@.len() ==> (#[trigger] self.edges@[i]).0 < self.nodes
                    && self.edges@[i].1 < self.nodes,
    {
        assert forall|i: int| 0 <= i < self.edges@.len() implies (#[trigger] self.edges@[i]).0
            < self.nodes && self.edges@[i].1 < self.nodes by {
            assert(self@.valid_edge(self@.edges[i]));
        }
    }

    /// The graph without nodes.
    pub fn new() -> (g: Self)
        ensures
            g@.nodes == 0,
            g@.edges == Seq::<(int, int)>::empty(),
            g.wf(),
    {
        Graph { nodes: 0, edges: Vec::new() }
    }

    /// The number of nodes.
    pub fn node_count(&self) -> (n: usize)
        ensures
            n == self@.nodes,
    {
        self.nodes
    }

    /// The number of edges, parallel ones counted each.
    pub fn edge_count(&self) -> (n: usize)
        ensures
            n == self@.edges.len(),
    {
        self.edges.len()
    }

    /// Adds a node and returns its index, or `None` when no index is left.
    pub fn add_node(&mut self) -> (index: Option<usize>)
        requires
            old(self).wf(),
        ensures
            final(self).wf(),
            final(self)@.edges == old(self)@.edges,
            match index {
                Some(i) => i == old(self)@.nodes && final(self)@.nodes == old(self)@.nodes + 1,
                None => old(self)@.nodes == usize::MAX && final(self)@ == old(self)@,
            },
    {
        if self.nodes == usize::MAX {
            return None;
        }
        let index = self.nodes;
        self.nodes = index + 1;
        assert(self@.edges =~= old(self)@.edges);
        Some(index)
    }

    /// Adds the edge `from -> to` and returns `true`; leaves the graph as it
    /// is and returns `false` when one of the two is no node of the graph.
    pub fn add_edge(&mut self, from: usize, to: usize) -> (added: bool)
        requires
            old(self).wf(),
        ensures
            final(self).wf(),
            final(self)@.nodes == old(self)@.nodes,
            added == (from < old(self)@.nodes && to < old(self)@.nodes),
            added ==> final(self)@.edges == old(self)@.edges.push((from as int, to as int)),
            !added ==> final(self)@.edges == old(self)@.edges,
    {
        if from < self.nodes && to < self.nodes {
            self.edges.push((from, to));
            assert(self@.edges =~= old(self)@.edges.push((from as int, to as int)));
            true
        } else {
            false
        }
    }

    /// Whether at least one edge `from -> to` exists.
    pub fn has_edge(&self, from: usize, to: usize) -> (found: bool)
        ensures
            found == self@.has_edge(from as int, to as int),
    {
        let mut k: usize = 0;
        while k < self.edges.len()
            invariant
                k <= self.edges.len(),
                forall|j: int| 0 <= j < k ==> self@.edges[j] != (from as int, to as int),
            decreases self.edges.len() - k,
        {
            let e = self.edges[k];
            if e.0 == from && e.1 == to {
                assert(self@.edges[k as int] == (from as int, to as int));
                return true;
            }
            k += 1;
        }
        false
    }

    /// The distinct nodes with an edge into `node`, in ascending order.
    pub fn predecessors(&self, node: usize) -> (list: Vec<usize>)
        requires
            self.wf(),
        ensures
            self@.is_predecessor_list(node as int, ints(list@)),
    {
        proof {
            self.lemma_endpoints();
        }
        let mut list: Vec<usize> = Vec::new();
        let mut u: usize = 0;
        while u < self.nodes
            invariant
                u <= self.nodes,
                forall|i: int, j: int| 0 <= i < j < list.len() ==> list[i] < list[j],
                forall|i: int| 0 <= i < list.len() ==> list[i] < u,
                forall|x: int|
                    #[trigger] ints(list@).contains(x) <==> 0 <= x < u && self@.has_edge(
                        x,
                        node as int,
                    ),
            decreases self.nodes - u,
        {
            if self.has_edge(u, node) {
                let ghost before = ints(list@);
                list.push(u);
                assert(ints(list@) =~= before.push(u as int));
                assert forall|x: int| #[trigger] ints(list@).contains(x) <==> 0 <= x < u + 1
                    && self@.has_edge(x, node as int) by {
                    if ints(list@).contains(x) {
                        let i = choose|i: int| 0 <= i < list.len() && ints(list@)[i] == x;
                        if i < before.len() {
                            assert(before[i] == x);
                            assert(before.contains(x));
                        }
                    }
                    if 0 <= x < u + 1 && self@.has_edge(x, node as int) {
                        if x == u {
                            assert(ints(list@)[list.len() - 1] == x);
                        } else {
                            assert(before.contains(x));
                            let i = choose|i: int| 0 <= i < before.len() && before[i] == x;
                            assert(ints(list@)[i] == x);
                        }
                    }
                }
            }
            u += 1;
        }
        proof {
            assert forall|x: int| #[trigger] ints(list@).contains(x) <==> self@.has_edge(
                x,
                node as int,
            ) by {
                if self@.has_edge(x, node as int) {
                    let k = choose|k: int|
                        0 <= k < self@.edges.len() && self@.edges[k] == (x, node as int);
                    assert(self.edges@[k].0 < self.nodes);
                }
            }
        }
        list
    }

    /// The distinct nodes with an edge out of `node`, in ascending order.
    pub fn successors(&self, node: usize) -> (list: Vec<usize>)
        requires
            self.wf(),
        ensures
            self@.is_successor_list(node as int, ints(list@)),
    {
        proof {
            self.lemma_endpoints();
        }
        let mut list: Vec<usize> = Vec::new();
        let mut v: usize = 0;
        while v < self.nodes
            invariant
                v <= self.nodes,
                forall|i: int, j: int| 0 <= i < j < list.len() ==> list[i] < list[j],
                forall|i: int| 0 <= i < list.len() ==> list[i] < v,
                forall|x: int|
                    #[trigger] ints(list@).contains(x) <==> 0 <= x < v && self@.has_edge(
                        node as int,
                        x,
                    ),
            decreases self.nodes - v,
        {
            if self.has_edge(node, v) {
                let ghost before = ints(list@);
                list.push(v);
                assert(ints(list@) =~= before.push(v as int));
                assert forall|x: int| #[trigger] ints(list@).contains(x) <==> 0 <= x < v + 1
                    && self@.has_edge(node as int, x) by {
                    if ints(list@).contains(x) {
                        let i = choose|i: int| 0 <= i < list.len() && ints(list@)[i] == x;
                        if i < before.len() {
                            assert(before[i] == x);
                            assert(before.contains(x));
                        }
                    }
                    if 0 <= x < v + 1 && self@.has_edge(node as int, x) {
                        if x == v {
                            assert(ints(list@)[list.len() - 1] == x);
                        } else {
                            assert(before.contains(x));
                            let i = choose|i: int| 0 <= i < before.len() && before[i] == x;
                            assert(ints(list@)[i] == x);
                        }
                    }
                }
            }
            v += 1;
        }
        proof {
            assert forall|x: int| #[trigger] ints(list@).contains(x) <==> self@.has_edge(
                node as int,
                x,
            ) by {
                if self@.has_edge(node as int, x) {
                    let k = choose|k: int|
                        0 <= k < self@.edges.len() && self@.edges[k] == (node as int, x);
                    assert(self.edges@[k].1 < self.nodes);
                }
            }
        }
        list
    }

    /// The number of distinct nodes with an edge into `node`.
    pub fn in_degree(&self, node: usize) -> (d: usize)
        requires
            self.wf(),
        ensures
            exists|s: Seq<int>| #[trigger] self@.is_predecessor_list(node as int, s) && s.len() == d,
    {
        let list = self.predecessors(node);
        assert(self@.is_predecessor_list(node as int, ints(list@)));
        list.len()
    }

    /// The number of distinct nodes with an edge out of `node`.
    pub fn out_degree(&self, node: usize) -> (d: usize)
        requires
            self.wf(),
        ensures
            exists|s: Seq<int>| #[trigger] self@.is_successor_list(node as int, s) && s.len() == d,
    {
        let list = self.successors(node);
        assert(self@.is_successor_list(node as int, ints(list@)));
        list.len()
    }
}

/// A vector of `n` times `false`.
fn all_false(n: usize) -> (v: Vec<bool>)
    ensures
        v.len() == n,
        forall|i: int| 0 <= i < n ==> !v[i],
{
    let mut v: Vec<bool> = Vec::new();
    let mut i: usize = 0;
    while i < n
        invariant
            i <= n,
            v.len() == i,
            forall|j: int| 0 <= j < i ==> !v[j],
        decreases n - i,
    {
        v.push(false);
        i += 1;
    }
    v
}

impl Graph {
    /// Marks the nodes that `root` depends on, `root` included, by a
    /// breadth-first walk against the direction of the edges.
    pub fn ancestors(&self, root: usize) -> (marked: Vec<bool>)
        requires
            self.wf(),
            root < self@.nodes,
        ensures
            marked.len() == self@.nodes,
            forall|v: int| 0 <= v < marked.len() ==> (marked[v] <==> self@.reaches(v, root as int)),
    {
        let n = self.nodes;
        let mut marked = all_false(n);
        marked.set(root, true);
        let mut queue: Vec<usize> = Vec::new();
        queue.push(root);
        let mut head: usize = 0;
        proof {
            self.lemma_endpoints();
            lemma_reaches_self(self@, root as int);
            assert(queue@[0] == root);
        }
        while head < queue.len()
            invariant
                self.wf(),
                n == self.nodes,
                root < n,
                marked.len() == n,
                head <= queue.len(),
                queue@.no_duplicates(),
                marked[root as int],
                forall|i: int| 0 <= i < queue.len() ==> queue[i] < n && marked[queue[i] as int],
                forall|v: int| 0 <= v < n && marked[v] ==> queue@.contains(v as usize),
                forall|v: int| 0 <= v < n && marked[v] ==> self@.reaches(v, root as int),
                forall|i: int, k: int|
                    0 <= i < head && 0 <= k < self.edges.len() && (#[trigger] self.edges[k]).1
                        == #[trigger] queue[i] ==> marked[self.edges[k].0 as int],
            decreases n - head,
        {
            proof {
                lemma_distinct_bounded(queue@, n as nat);
            }
            let cur = queue[head];
            let mut k: usize = 0;
            while k < self.edges.len()
                invariant
                    self.wf(),
                    n == self.nodes,
                    root < n,
                    marked.len() == n,
                    head < queue.len(),
                    cur == queue[head as int],
                    k <= self.edges.len(),
                    queue@.no_duplicates(),
                    marked[root as int],
                    forall|i: int| 0 <= i < queue.len() ==> queue[i] < n && marked[queue[i] as int],
                    forall|v: int| 0 <= v < n && marked[v] ==> queue@.contains(v as usize),
                    forall|v: int| 0 <= v < n && marked[v] ==> self@.reaches(v, root as int),
                    forall|i: int, k: int|
                        0 <= i < head && 0 <= k < self.edges.len() && (#[trigger] self.edges[k]).1
                            == #[trigger] queue[i] ==> marked[self.edges[k].0 as int],
                    forall|j: int|
                        0 <= j < k && (#[trigger] self.edges[j]).1 == cur ==> marked[self.edges[j].0 as int],
                decreases self.edges.len() - k,
            {
                let from = self.edges[k].0;
                let to = self.edges[k].1;
                proof {
                    self.lemma_endpoints();
                }
                if to == cur && !marked[from] {
                    let ghost old_queue = queue@;
                    let ghost old_marked = marked@;
                    marked.set(from, true);
                    queue.push(from);
                    proof {
                        assert(self@.edges[k as int] == (from as int, to as int));
                        assert(self@.has_edge(from as int, cur as int));
                        lemma_reaches_step(self@, from as int, cur as int, root as int);
                        assert(!old_queue.contains(from)) by {
                            if old_queue.contains(from) {
                                let i = choose|i: int| 0 <= i < old_queue.len() && old_queue[i] == from;
                                assert(old_marked[old_queue[i] as int]);
                            }
                        }
                        assert forall|v: int| 0 <= v < n && marked[v] implies queue@.contains(
                            v as usize,
                        ) by {
                            if v == from {
                                assert(queue@[queue.len() - 1] == from);
                            } else {
                                assert(old_marked[v]);
                                let i = choose|i: int|
                                    0 <= i < old_queue.len() && old_queue[i] == v as usize;
                                assert(queue@[i] == v as usize);
                            }
                        }
                    }
                }
                k += 1;
            }
            head += 1;
        }
        proof {
            assert forall|v: int| 0 <= v < marked.len() implies (marked[v] <==> self@.reaches(
                v,
                root as int,
            )) by {
                if self@.reaches(v, root as int) {
                    assert forall|k: int|
                        0 <= k < self@.edges.len() && marked@[(#[trigger] self@.edges[k]).1] implies marked@[self@.edges[k].0] by {
                        let t = self.edges[k].1;
                        assert(queue@.contains(t));
                        let i = choose|i: int| 0 <= i < queue.len() && queue[i] == t;
                        assert(self.edges[k].1 == queue[i]);
                    }
                    lemma_closed_holds_ancestors(self@, root as int, marked@, v);
                }
            }
        }
        marked
    }

    /// Whether every edge into `node` comes from a node that `placed` holds.
    fn all_predecessors_placed(&self, node: usize, placed: &Vec<bool>) -> (all: bool)
        requires
            self.wf(),
            placed.len() == self@.nodes,
        ensures
            all <==> forall|u: int|
                #[trigger] self@.has_edge(u, node as int) ==> 0 <= u < placed.len() && placed[u],
    {
        proof {
            self.lemma_endpoints();
        }
        let mut k: usize = 0;
        while k < self.edges.len()
            invariant
                self.wf(),
                placed.len() == self.nodes,
                k <= self.edges.len(),
                forall|j: int|
                    0 <= j < k && (#[trigger] self.edges[j]).1 == node ==> placed[self.edges[j].0 as int],
            decreases self.edges.len() - k,
        {
            let from = self.edges[k].0;
            let to = self.edges[k].1;
            proof {
                self.lemma_endpoints();
            }
            if to == node && !placed[from] {
                proof {
                    assert(self@.edges[k as int] == (from as int, node as int));
                    assert(self@.has_edge(from as int, node as int));
                }
                return false;
            }
            k += 1;
        }
        proof {
            assert forall|u: int| #[trigger] self@.has_edge(u, node as int) implies 0 <= u
                < placed.len() && placed[u] by {
                let j = choose|j: int| 0 <= j < self@.edges.len() && self@.edges[j] == (u, node as int);
                assert(self.edges[j].1 == node);
            }
        }
        true
    }

    /// Orders the nodes that `root` depends on, `root` included, so that a
    /// node comes after everything it instantiates. Of the nodes that could
    /// come next the one with the smallest index does. Fails with
    /// `CyclicDesign` exactly when no such order exists, which is when some
    /// of the nodes instantiate each other in a circle.
    pub fn minimal_topological_sort(&self, root: usize) -> (r: Result<Vec<usize>, GraphError>)
        requires
            self.wf(),
            root < self@.nodes,
        ensures
            match r {
                Ok(order) => self@.is_minimal_topological_sort(root as int, ints(order@)),
                Err(e) => e@ == GraphErrorView::CyclicDesign && self@.is_cyclic_below(root as int)
                    && self@.has_circle_below(root as int),
            },
    {
        let n = self.nodes;
        let needed = self.ancestors(root);
        let mut placed = all_false(n);
        let mut order: Vec<usize> = Vec::new();
        loop
            invariant
                self.wf(),
                n == self.nodes,
                root < n,
                needed.len() == n,
                placed.len() == n,
                forall|v: int| 0 <= v < n ==> (needed[v] <==> self@.reaches(v, root as int)),
                forall|v: int| 0 <= v < n ==> (placed[v] <==> ints(order@).contains(v)),
                ints(order@).no_duplicates(),
                forall|i: int| 0 <= i < order.len() ==> order[i] < n && needed[order[i] as int],
                forall|i: int|
                    0 <= i < order.len() ==> self@.ready_at(ints(order@), i, #[trigger] ints(order@)[i]),
                self@.breaks_ties_by_index(root as int, ints(order@)),
            decreases n - order.len(),
        {
            proof {
                assert(order@.no_duplicates()) by {
                    assert forall|a: int, b: int|
                        0 <= a < order.len() && 0 <= b < order.len() && a != b implies order@[a]
                        != order@[b] by {
                        assert(ints(order@)[a] != ints(order@)[b]);
                    }
                }
                lemma_distinct_bounded(order@, n as nat);
            }
            let ghost o = ints(order@);
            let ghost len = order.len() as int;
            let mut waiting: Option<usize> = None;
            let mut next: Option<usize> = None;
            let mut i: usize = 0;
            while i < n && next.is_none()
                invariant
                    self.wf(),
                    n == self.nodes,
                    needed.len() == n,
                    placed.len() == n,
                    i <= n,
                    o == ints(order@),
                    len == order.len(),
                    forall|v: int| 0 <= v < n ==> (placed[v] <==> o.contains(v)),
                    forall|j: int|
                        0 <= j < i && needed[j] && !placed[j] && next != Some(j as usize)
                            ==> !self@.ready_at(o, len, j),
                    forall|j: int| 0 <= j < i && needed[j] && !placed[j] ==> waiting is Some,
                    waiting matches Some(w) ==> w < n && needed[w as int] && !placed[w as int],
                    next matches Some(x) ==> x < i && x < n && needed[x as int] && !placed[x as int]
                        && self@.ready_at(o, len, x as int),
                decreases n - i + (if next is None { 1int } else { 0int }),
            {
                if needed[i] && !placed[i] {
                    waiting = Some(i);
                    let all = self.all_predecessors_placed(i, &placed);
                    proof {
                        if all {
                            assert forall|u: int| #[trigger] self@.has_edge(u, i as int) implies placed_before(
                                o,
                                len,
                                u,
                            ) by {
                                assert(o.contains(u));
                                let a = choose|a: int| 0 <= a < o.len() && o[a] == u;
                                assert(o[a] == u);
                            }
                        } else {
                            let u = choose|u: int|
                                #[trigger] self@.has_edge(u, i as int) && !(0 <= u < placed.len()
                                    && placed[u]);
                            if placed_before(o, len, u) {
                                let a = choose|a: int| 0 <= a < len && a < o.len() && o[a] == u;
                                assert(o.contains(u));
                                assert(order[a] < n);
                            }
                            assert(!self@.ready_at(o, len, i as int));
                        }
                    }
                    if all {
                        next = Some(i);
                    }
                }
                i += 1;
            }
            match next {
                Some(x) => {
                    placed.set(x, true);
                    order.push(x);
                    proof {
                        let o2 = ints(order@);
                        assert(o2 =~= o.push(x as int));
                        assert forall|a: int, b: int|
                            0 <= a < order.len() && 0 <= b < order.len() && a != b implies order@[a]
                            != order@[b] by {
                            if a < len && b < len {
                                assert(o[a] != o[b]);
                            } else if a < len {
                                assert(o[a] == order@[a] as int);
                                assert(o.contains(order@[a] as int));
                            } else {
                                assert(o[b] == order@[b] as int);
                                assert(o.contains(order@[b] as int));
                            }
                        }
                        lemma_distinct_bounded(order@, n as nat);
                        assert(!o.contains(x as int));
                        assert forall|v: int| 0 <= v < n implies (placed[v] <==> o2.contains(v)) by {
                            if o2.contains(v) {
                                let a = choose|a: int| 0 <= a < o2.len() && o2[a] == v;
                                if a < len {
                                    assert(o[a] == v);
                                    assert(o.contains(v));
                                }
                            }
                            if placed[v] {
                                if v == x {
                                    assert(o2[len] == v);
                                } else {
                                    assert(o.contains(v));
                                    let a = choose|a: int| 0 <= a < o.len() && o[a] == v;
                                    assert(o2[a] == v);
                                }
                            }
                        }
                        assert forall|a: int| 0 <= a < o2.len() implies self@.ready_at(
                            o2,
                            a,
                            #[trigger] o2[a],
                        ) by {
                            if a < len {
                                assert(self@.ready_at(o, a, o[a]));
                                assert forall|u: int| #[trigger] self@.has_edge(u, o2[a]) implies placed_before(
                                    o2,
                                    a,
                                    u,
                                ) by {
                                    assert(placed_before(o, a, u));
                                    let b = choose|b: int| 0 <= b < a && b < o.len() && o[b] == u;
                                    assert(o2[b] == u);
                                }
                            } else {
                                assert forall|u: int| #[trigger] self@.has_edge(u, o2[a]) implies placed_before(
                                    o2,
                                    a,
                                    u,
                                ) by {
                                    assert(placed_before(o, len, u));
                                    let b = choose|b: int| 0 <= b < len && b < o.len() && o[b] == u;
                                    assert(o2[b] == u);
                                }
                            }
                        }
                        assert forall|k: int, j: int|
                            0 <= k < o2.len() && 0 <= j < o2[k] && self@.is_ancestor(j, root as int)
                                && !placed_before(o2, k, j) implies !#[trigger] self@.ready_at(
                            o2,
                            k,
                            j,
                        ) by {
                            if self@.ready_at(o2, k, j) {
                                assert forall|u: int| #[trigger] self@.has_edge(u, j) implies placed_before(
                                    o,
                                    k,
                                    u,
                                ) by {
                                    assert(placed_before(o2, k, u));
                                    let b = choose|b: int| 0 <= b < k && b < o2.len() && o2[b] == u;
                                    assert(o[b] == u);
                                }
                                assert(self@.ready_at(o, k, j));
                                if placed_before(o, k, j) {
                                    let b = choose|b: int| 0 <= b < k && b < o.len() && o[b] == j;
                                    assert(o2[b] == j);
                                    assert(placed_before(o2, k, j));
                                }
                                if k < len {
                                    assert(o[k] == o2[k]);
                                } else {
                                    assert(needed[j]);
                                    if placed[j] {
                                        assert(o.contains(j));
                                        let b = choose|b: int| 0 <= b < o.len() && o[b] == j;
                                        assert(o2[b] == j);
                                        assert(placed_before(o2, k, j));
                                    }
                                }
                            }
                        }
                    }
                },
                None => {
                    match waiting {
                        Some(w) => {
                            proof {
                                assert forall|v: int|
                                    self@.is_ancestor(v, root as int) && !placed[v] implies exists|
                                    u: int,
                                |
                                    0 <= u < self@.nodes && !placed[u] && #[trigger] self@.has_edge(
                                        u,
                                        v,
                                    ) by {
                                    assert(!self@.ready_at(o, len, v));
                                    let u = choose|u: int|
                                        #[trigger] self@.has_edge(u, v) && !placed_before(o, len, u);
                                    let e = choose|e: int|
                                        0 <= e < self@.edges.len() && self@.edges[e] == (u, v);
                                    assert(self@.valid_edge(self@.edges[e]));
                                    if placed[u] {
                                        assert(o.contains(u));
                                        let b = choose|b: int| 0 <= b < o.len() && o[b] == u;
                                        assert(placed_before(o, len, u));
                                    }
                                }
                                lemma_stuck_is_cyclic(self@, root as int, placed@, w as int);
                                lemma_stuck_has_circle(self@, root as int, placed@, w as int);
                            }
                            return Err(GraphError::CyclicDesign);
                        },
                        None => {
                            proof {
                                assert forall|v: int| #[trigger]
                                    o.contains(v) <==> self@.is_ancestor(v, root as int) by {
                                    if o.contains(v) {
                                        let b = choose|b: int| 0 <= b < o.len() && o[b] == v;
                                        assert(order[b] < n);
                                    }
                                }
                                assert forall|a: int, b: int|
                                    0 <= a < o.len() && 0 <= b < o.len() && #[trigger] self@.has_edge(
                                        o[a],
                                        o[b],
                                    ) implies a < b by {
                                    assert(self@.ready_at(o, b, o[b]));
                                    assert(placed_before(o, b, o[a]));
                                    let c = choose|c: int| 0 <= c < b && c < o.len() && o[c] == o[a];
                                }
                            }
                            return Ok(order);
                        },
                    }
                },
            }
        }
    }
}

} // verus!
