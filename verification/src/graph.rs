//! Index-based directed graphs: the verified core behind the dependency
//! resolvers. Nodes are the integers `0..n`; edges point from a service to
//! the services that depend on it. The module proves the three facts the
//! orchestration layer rests on: a complete Kahn ordering exists exactly
//! when the graph is acyclic, the ordering respects every edge, and
//! breadth-first search computes exactly the set of reachable nodes.

use vstd::prelude::*;
use vstd::seq_lib::*;
use vstd::set::axiom_set_insert_len;
use vstd::set::axiom_set_remove_len;
use vstd::set_lib::*;

verus! {

/// A directed graph over nodes `0..n`, kept as mutually consistent forward
/// and reverse adjacency lists without duplicate entries.
pub struct Digraph {
    pub succ: Vec<Vec<usize>>,
    pub pred: Vec<Vec<usize>>,
}

impl Digraph {
    /// Number of nodes.
    pub open spec fn n(self) -> int {
        self.succ@.len() as int
    }

    /// Edge from `u` to `v`.
    pub open spec fn edge(self, u: usize, v: usize) -> bool {
        &&& (u as int) < self.n()
        &&& (v as int) < self.n()
        &&& self.succ@[u as int]@.contains(v)
    }

    pub open spec fn wf(self) -> bool {
        &&& self.pred@.len() == self.succ@.len()
        &&& forall|i: int| 0 <= i < self.n() ==> (#[trigger] self.succ@[i])@.no_duplicates()
        &&& forall|i: int| 0 <= i < self.n() ==> (#[trigger] self.pred@[i])@.no_duplicates()
        &&& forall|i: int, k: int|
            0 <= i < self.n() && 0 <= k < self.succ@[i]@.len()
                ==> (#[trigger] self.succ@[i]@[k] as int) < self.n()
        &&& forall|i: int, k: int|
            0 <= i < self.n() && 0 <= k < self.pred@[i]@.len()
                ==> (#[trigger] self.pred@[i]@[k] as int) < self.n()
        &&& forall|u: usize, v: usize|
            (u as int) < self.n() && (v as int) < self.n()
                ==> ((#[trigger] self.succ@[u as int]@.contains(v))
                    <==> (#[trigger] self.pred@[v as int]@.contains(u)))
    }

    /// `p` is a walk along edges.
    pub open spec fn is_path(self, p: Seq<usize>) -> bool {
        forall|k: int| 0 <= k < p.len() - 1 ==> self.edge(#[trigger] p[k], p[k + 1])
    }

    /// A nonempty walk that returns to its starting node.
    pub open spec fn is_cycle(self, p: Seq<usize>) -> bool {
        &&& p.len() >= 2
        &&& self.is_path(p)
        &&& p[0] == p[p.len() - 1]
    }

    pub open spec fn has_cycle(self) -> bool {
        exists|p: Seq<usize>| self.is_cycle(p)
    }

    /// `v` is reachable from `u` along at least one edge.
    pub open spec fn reaches(self, u: usize, v: usize) -> bool {
        exists|p: Seq<usize>|
            self.is_path(p) && p.len() >= 2 && p[0] == u && p[p.len() - 1] == v
    }

    /// An empty graph over `n` nodes.
    pub fn new(n: usize) -> (g: Digraph)
        ensures
            g.wf(),
            g.n() == n,
            forall|u: usize, v: usize| !g.edge(u, v),
    {
        let mut succ: Vec<Vec<usize>> = Vec::new();
        let mut pred: Vec<Vec<usize>> = Vec::new();
        let mut i: usize = 0;
        while i < n
            invariant
                i <= n,
                succ@.len() == i,
                pred@.len() == i,
                forall|j: int| 0 <= j < i ==> (#[trigger] succ@[j])@.len() == 0,
                forall|j: int| 0 <= j < i ==> (#[trigger] pred@[j])@.len() == 0,
            decreases n - i,
        {
            succ.push(Vec::new());
            pred.push(Vec::new());
            i = i + 1;
        }
        Digraph { succ, pred }
    }

    /// Add the edge `u -> v` if it is not already present.
    pub fn add_edge(&mut self, u: usize, v: usize)
        requires
            old(self).wf(),
            (u as int) < old(self).n(),
            (v as int) < old(self).n(),
        ensures
            final(self).wf(),
            final(self).n() == old(self).n(),
            forall|a: usize, b: usize|
                #[trigger] final(self).edge(a, b) <==> (old(self).edge(a, b) || (a == u && b == v)),
    {
        let already = contains_usize(&self.succ[u], v);
        if !already {
            let mut row = self.succ.remove(u);
            row.push(v);
            self.succ.insert(u, row);
            let mut prow = self.pred.remove(v);
            prow.push(u);
            self.pred.insert(v, prow);
            proof {
                assert(self.succ@ =~= old(self).succ@.update(
                    u as int,
                    self.succ@[u as int],
                ));
                assert(self.pred@ =~= old(self).pred@.update(
                    v as int,
                    self.pred@[v as int],
                ));
                assert(self.succ@[u as int]@ == old(self).succ@[u as int]@.push(v));
                assert(self.pred@[v as int]@ == old(self).pred@[v as int]@.push(u));
            }
            assert forall|a: usize, b: usize| #[trigger] self.edge(a, b)
                implies (old(self).edge(a, b) || (a == u && b == v)) by {
                if a != u {
                    assert(self.succ@[a as int] == old(self).succ@[a as int]);
                } else {
                    lemma_push_contains(old(self).succ@[u as int]@, v, b);
                }
            }
            assert forall|a: usize, b: usize|
                (old(self).edge(a, b) || (a == u && b == v))
                implies #[trigger] self.edge(a, b) by {
                if a != u {
                    assert(self.succ@[a as int] == old(self).succ@[a as int]);
                } else {
                    lemma_push_contains(old(self).succ@[u as int]@, v, b);
                }
            }
            assert(self.wf()) by {
                assert forall|i: int, k: int|
                    0 <= i < self.n() && 0 <= k < self.succ@[i]@.len()
                    implies (#[trigger] self.succ@[i]@[k] as int) < self.n() by {
                    if i != u {
                        assert(self.succ@[i] == old(self).succ@[i]);
                    } else if k < old(self).succ@[i]@.len() {
                        assert(self.succ@[i]@[k] == old(self).succ@[i]@[k]);
                    } else {
                        assert(self.succ@[i]@[k] == v);
                    }
                }
                assert forall|i: int, k: int|
                    0 <= i < self.n() && 0 <= k < self.pred@[i]@.len()
                    implies (#[trigger] self.pred@[i]@[k] as int) < self.n() by {
                    if i != v {
                        assert(self.pred@[i] == old(self).pred@[i]);
                    } else if k < old(self).pred@[i]@.len() {
                        assert(self.pred@[i]@[k] == old(self).pred@[i]@[k]);
                    } else {
                        assert(self.pred@[i]@[k] == u);
                    }
                }
                assert forall|i: int| 0 <= i < self.n()
                    implies (#[trigger] self.succ@[i])@.no_duplicates() by {
                    if i != u {
                        assert(self.succ@[i] == old(self).succ@[i]);
                    } else {
                        lemma_push_no_dup(old(self).succ@[u as int]@, v);
                    }
                }
                assert forall|i: int| 0 <= i < self.n()
                    implies (#[trigger] self.pred@[i])@.no_duplicates() by {
                    if i != v {
                        assert(self.pred@[i] == old(self).pred@[i]);
                    } else {
                        assert(!old(self).pred@[v as int]@.contains(u));
                        lemma_push_no_dup(old(self).pred@[v as int]@, u);
                    }
                }
                assert forall|a: usize, b: usize|
                    (a as int) < self.n() && (b as int) < self.n()
                    implies ((#[trigger] self.succ@[a as int]@.contains(b))
                        <==> (#[trigger] self.pred@[b as int]@.contains(a))) by {
                    if a == u {
                        lemma_push_contains(old(self).succ@[u as int]@, v, b);
                    } else {
                        assert(self.succ@[a as int] == old(self).succ@[a as int]);
                    }
                    if b == v {
                        lemma_push_contains(old(self).pred@[v as int]@, u, a);
                    } else {
                        assert(self.pred@[b as int] == old(self).pred@[b as int]);
                    }
                }
            }
        }
    }
}

/// Membership in a pushed sequence.
proof fn lemma_push_contains(s: Seq<usize>, x: usize, y: usize)
    ensures
        s.push(x).contains(y) <==> (s.contains(y) || x == y),
{
    if s.contains(y) {
        let k = choose|k: int| 0 <= k < s.len() && s[k] == y;
        assert(s.push(x)[k] == y);
    }
    assert(s.push(x)[s.len() as int] == x);
    if s.push(x).contains(y) && y != x {
        let k = choose|k: int| 0 <= k < s.push(x).len() && s.push(x)[k] == y;
        assert(k < s.len());
        assert(s[k] == y);
    }
}

/// Pushing a fresh element keeps a sequence duplicate-free.
proof fn lemma_push_no_dup(s: Seq<usize>, x: usize)
    requires
        s.no_duplicates(),
        !s.contains(x),
    ensures
        s.push(x).no_duplicates(),
{
    let t = s.push(x);
    assert forall|a: int, b: int| 0 <= a < t.len() && 0 <= b < t.len() && a != b
        implies t[a] != t[b] by {
        if a < s.len() && b < s.len() {
        } else if a < s.len() {
            assert(s.contains(s[a]));
        } else if b < s.len() {
            assert(s.contains(s[b]));
        }
    }
}

/// Linear membership test for a `usize` vector.
pub fn contains_usize(v: &Vec<usize>, x: usize) -> (r: bool)
    ensures
        r == v@.contains(x),
{
    let mut i: usize = 0;
    while i < v.len()
        invariant
            i <= v@.len(),
            forall|k: int| 0 <= k < i ==> v@[k] != x,
        decreases v@.len() - i,
    {
        if v[i] == x {
            return true;
        }
        i = i + 1;
    }
    false
}

/// A sequence of distinct values below `n` has at most `n` elements.
proof fn lemma_distinct_bounded_len(s: Seq<usize>, n: nat)
    requires
        s.no_duplicates(),
        forall|k: int| 0 <= k < s.len() ==> (#[trigger] s[k] as int) < n,
    ensures
        s.len() <= n,
{
    let t = s.map_values(|v: usize| v as int);
    assert(t.no_duplicates());
    t.unique_seq_to_set();
    assert(t.to_set().subset_of(set_int_range(0, n as int))) by {
        assert forall|x: int| t.to_set().contains(x)
            implies set_int_range(0, n as int).contains(x) by {
            let k = choose|k: int| 0 <= k < t.len() && t[k] == x;
            assert(s[k] as int == x);
        }
    }
    lemma_int_range(0, n as int);
    lemma_len_subset(t.to_set(), set_int_range(0, n as int));
}

/// A sequence of `n` distinct values below `n` contains every value below `n`.
proof fn lemma_distinct_bounded_complete(s: Seq<usize>, n: nat, v: usize)
    requires
        s.no_duplicates(),
        forall|k: int| 0 <= k < s.len() ==> (#[trigger] s[k] as int) < n,
        s.len() == n,
        (v as int) < n,
    ensures
        s.contains(v),
{
    if !s.contains(v) {
        let t = s.map_values(|x: usize| x as int);
        assert(t.no_duplicates());
        t.unique_seq_to_set();
        let small = set_int_range(0, n as int).remove(v as int);
        assert(t.to_set().subset_of(small)) by {
            assert forall|x: int| t.to_set().contains(x) implies small.contains(x) by {
                let k = choose|k: int| 0 <= k < t.len() && t[k] == x;
                assert(s[k] as int == x);
                assert(s[k] != v);
            }
        }
        lemma_int_range(0, n as int);
        lemma_len_subset(t.to_set(), small);
        assert(small.len() == n - 1);
        assert(false);
    }
}

/// A duplicate-free sequence that contains every value below `n` has at
/// least `n` elements.
pub proof fn lemma_contained_all_len(s: Seq<usize>, n: nat)
    requires
        s.no_duplicates(),
        n <= usize::MAX,
        forall|v: usize| (v as int) < n ==> s.contains(v),
    ensures
        s.len() >= n,
{
    lemma_node_set(n);
    let nodes = Set::new(|v: usize| (v as int) < n);
    s.unique_seq_to_set();
    assert(nodes.subset_of(s.to_set())) by {
        assert forall|v: usize| nodes.contains(v) implies s.to_set().contains(v) by {
            assert(s.contains(v));
        }
    }
    lemma_len_subset(nodes, s.to_set());
}

/// A sequence with more elements than its value set repeats a value.
proof fn lemma_pigeonhole(s: Seq<usize>, vals: Set<usize>) -> (ij: (int, int))
    requires
        vals.finite(),
        forall|k: int| 0 <= k < s.len() ==> vals.contains(#[trigger] s[k]),
        s.len() > vals.len(),
    ensures
        0 <= ij.0 < ij.1 < s.len(),
        s[ij.0] == s[ij.1],
{
    if s.no_duplicates() {
        s.unique_seq_to_set();
        assert(s.to_set().subset_of(vals)) by {
            assert forall|x: usize| s.to_set().contains(x) implies vals.contains(x) by {
                let k = choose|k: int| 0 <= k < s.len() && s[k] == x;
            }
        }
        lemma_len_subset(s.to_set(), vals);
        assert(false);
    }
    let (i, j) = choose|i: int, j: int|
        0 <= i < s.len() && 0 <= j < s.len() && i != j && s[i] == s[j];
    if i < j {
        (i, j)
    } else {
        (j, i)
    }
}

/// The set of nodes below `n` is finite, with exactly `n` members.
proof fn lemma_node_set(n: nat)
    requires
        n <= usize::MAX,
    ensures
        Set::new(|v: usize| (v as int) < n).finite(),
        Set::new(|v: usize| (v as int) < n).len() == n,
    decreases n,
{
    let s = Set::new(|v: usize| (v as int) < n);
    if n == 0 {
        assert(s =~= Set::empty());
    } else {
        lemma_node_set((n - 1) as nat);
        let prev = Set::new(|v: usize| (v as int) < n - 1);
        let last = (n - 1) as usize;
        assert(s =~= prev.insert(last));
        axiom_set_insert_len(prev, last);
        assert(!prev.contains(last));
    }
}

impl Digraph {
    /// A contiguous slice of a walk is itself a walk.
    proof fn lemma_subpath(self, p: Seq<usize>, a: int, b: int)
        requires
            self.is_path(p),
            0 <= a <= b <= p.len(),
        ensures
            self.is_path(p.subrange(a, b)),
    {
        let q = p.subrange(a, b);
        assert forall|k: int| 0 <= k < q.len() - 1 implies self.edge(#[trigger] q[k], q[k + 1]) by {
            assert(q[k] == p[a + k]);
            assert(q[k + 1] == p[a + k + 1]);
        }
    }

    /// Every node of a set in which each node has a predecessor inside the
    /// set lies on a cycle; in particular the graph has one.
    proof fn lemma_stuck_set_has_cycle(self, s: Set<usize>)
        requires
            self.wf(),
            s.finite(),
            exists|v0: usize| s.contains(v0),
            forall|v: usize| #[trigger] s.contains(v)
                ==> (v as int) < self.n()
                    && exists|u: usize| s.contains(u) && self.edge(u, v),
        ensures
            self.has_cycle(),
    {
        let v0 = choose|v0: usize| s.contains(v0);
        assert(seq![v0][0] == v0);
        self.lemma_walk_back(s, seq![v0]);
    }

    /// Walk predecessors inside `s` until a node repeats; the repeated
    /// stretch is a cycle.
    #[verifier::rlimit(60)]
    proof fn lemma_walk_back(self, s: Set<usize>, p: Seq<usize>)
        requires
            self.wf(),
            s.finite(),
            self.is_path(p),
            p.len() >= 1,
            forall|k: int| 0 <= k < p.len() ==> s.contains(#[trigger] p[k]),
            forall|v: usize| #[trigger] s.contains(v)
                ==> (v as int) < self.n()
                    && exists|u: usize| s.contains(u) && self.edge(u, v),
        ensures
            self.has_cycle(),
        decreases s.len() + 1 - p.len(),
    {
        if p.len() > s.len() {
            let (i, j) = lemma_pigeonhole(p, s);
            if 0 <= i < j < p.len() && p[i] == p[j] {
                let c = p.subrange(i, j + 1);
                self.lemma_subpath(p, i, j + 1);
                assert(c.len() >= 2);
                assert(c[0] == p[i]);
                assert(c[c.len() - 1] == p[j]);
                assert(self.is_cycle(c));
            }
        } else {
            let head = p[0];
            assert(s.contains(head));
            let u = choose|u: usize| s.contains(u) && self.edge(u, head);
            let q = seq![u] + p;
            assert(q.len() == p.len() + 1);
            assert forall|k: int| 0 <= k < q.len() - 1
                implies self.edge(#[trigger] q[k], q[k + 1]) by {
                if k == 0 {
                    assert(q[0] == u);
                    assert(q[1] == p[0]);
                } else {
                    assert(q[k] == p[k - 1]);
                    assert(q[k + 1] == p[k]);
                }
            }
            assert forall|k: int| 0 <= k < q.len() implies s.contains(#[trigger] q[k]) by {
                if k == 0 {
                } else {
                    assert(q[k] == p[k - 1]);
                }
            }
            self.lemma_walk_back(s, q);
        }
    }
}

impl Digraph {
    /// How many predecessors of `v` are not yet in `done`.
    pub open spec fn missing_preds(self, v: usize, done: Seq<usize>) -> Set<usize> {
        Set::new(|u: usize| self.pred@[v as int]@.contains(u) && !done.contains(u))
    }

    proof fn lemma_missing_preds_finite(self, v: usize, done: Seq<usize>)
        requires
            self.wf(),
            (v as int) < self.n(),
        ensures
            self.missing_preds(v, done).finite(),
            self.missing_preds(v, done).len() <= self.pred@[v as int]@.len(),
    {
        broadcast use seq_to_set_is_finite;
        let m = self.missing_preds(v, done);
        let full = self.pred@[v as int]@.to_set();
        assert(m.subset_of(full));
        self.pred@[v as int]@.unique_seq_to_set();
        lemma_len_subset(m, full);
    }

    /// Adding `u` to `done` removes `u` (when it is a predecessor) from the
    /// missing set and changes nothing else.
    proof fn lemma_missing_preds_push(self, v: usize, done: Seq<usize>, u: usize)
        requires
            self.wf(),
            (v as int) < self.n(),
        ensures
            self.missing_preds(v, done.push(u))
                =~= self.missing_preds(v, done).remove(u),
    {
        assert forall|x: usize|
            self.missing_preds(v, done.push(u)).contains(x)
                <==> self.missing_preds(v, done).remove(u).contains(x) by {
            if done.push(u).contains(x) {
                if x != u {
                    let k = choose|k: int| 0 <= k < done.push(u).len() && done.push(u)[k] == x;
                    assert(k < done.len() ==> done.contains(x));
                }
            }
            if done.contains(x) {
                let k = choose|k: int| 0 <= k < done.len() && done[k] == x;
                assert(done.push(u)[k] == x);
                assert(done.push(u).contains(x));
            }
            if x == u {
                assert(done.push(u)[done.len() as int] == u);
                assert(done.push(u).contains(u));
            }
        }
    }

    /// A node with no missing predecessors keeps that property as the
    /// processed prefix grows.
    proof fn lemma_missing_zero_push(self, v: usize, done: Seq<usize>, u: usize)
        requires
            self.wf(),
            (v as int) < self.n(),
            self.missing_preds(v, done).len() == 0,
        ensures
            self.missing_preds(v, done.push(u)).len() == 0,
    {
        self.lemma_missing_preds_finite(v, done);
        self.missing_preds(v, done).lemma_len0_is_empty();
        self.lemma_missing_preds_push(v, done, u);
        assert(self.missing_preds(v, done.push(u)) =~= Set::empty());
    }

    /// Kahn's algorithm. Returns the discovery order; the order contains
    /// each node at most once, lists every predecessor of a node before the
    /// node itself, and is complete exactly when the graph is acyclic.
    pub fn kahn_order(&self) -> (r: Vec<usize>)
        requires
            self.wf(),
        ensures
            r@.no_duplicates(),
            forall|k: int| 0 <= k < r@.len() ==> (#[trigger] r@[k] as int) < self.n(),
            forall|b: int, u: usize|
                0 <= b < r@.len() && #[trigger] self.edge(u, #[trigger] r@[b])
                    ==> r@.subrange(0, b).contains(u),
            r@.len() <= self.n(),
            r@.len() == self.n() ==> forall|v: usize| (v as int) < self.n() ==> r@.contains(v),
            r@.len() < self.n() ==> self.has_cycle(),
    {
        let n = self.succ.len();
        let mut deg: Vec<usize> = Vec::new();
        let mut order: Vec<usize> = Vec::new();
        let mut i: usize = 0;
        while i < n
            invariant
                i <= n,
                n == self.n(),
                self.wf(),
                deg@.len() == i,
                forall|v: int| 0 <= v < i
                    ==> #[trigger] deg@[v] == self.missing_preds(v as usize, Seq::empty()).len(),
            decreases n - i,
        {
            let d = self.pred[i].len();
            proof {
                let m = self.missing_preds(i, Seq::empty());
                assert(m =~= self.pred@[i as int]@.to_set());
                self.pred@[i as int]@.unique_seq_to_set();
            }
            deg.push(d);
            i = i + 1;
        }
        let mut j: usize = 0;
        while j < n
            invariant
                j <= n,
                n == self.n(),
                self.wf(),
                deg@.len() == n,
                forall|v: int| 0 <= v < n
                    ==> #[trigger] deg@[v] == self.missing_preds(v as usize, Seq::empty()).len(),
                order@.no_duplicates(),
                forall|k: int| 0 <= k < order@.len() ==> (#[trigger] order@[k] as int) < n,
                forall|k: int| 0 <= k < order@.len() ==> (#[trigger] order@[k] as int) < j,
                forall|k: int| 0 <= k < order@.len()
                    ==> self.missing_preds(#[trigger] order@[k], Seq::empty()).len() == 0,
                forall|v: usize| (v as int) < j
                    && self.missing_preds(v, Seq::empty()).len() == 0
                    ==> order@.contains(v),
            decreases n - j,
        {
            if deg[j] == 0 {
                let ghost order_before = order@;
                order.push(j);
                assert forall|v: usize| (v as int) < j + 1
                    && self.missing_preds(v, Seq::empty()).len() == 0
                    implies order@.contains(v) by {
                    if (v as int) < j {
                        assert(order_before.contains(v));
                        let k = choose|k: int|
                            0 <= k < order_before.len() && order_before[k] == v;
                        assert(order@[k] == v);
                    } else {
                        assert(order@[order@.len() - 1] == v);
                    }
                }
            } else {
                assert forall|v: usize| (v as int) < j + 1
                    && self.missing_preds(v, Seq::empty()).len() == 0
                    implies order@.contains(v) by {
                }
            }
            j = j + 1;
        }
        proof {
            assert(order@.subrange(0, 0int) =~= Seq::<usize>::empty());
        }
        let mut qhead: usize = 0;
        while qhead < order.len()
            invariant
                self.wf(),
                n == self.n(),
                deg@.len() == n,
                qhead <= order@.len(),
                order@.no_duplicates(),
                forall|k: int| 0 <= k < order@.len() ==> (#[trigger] order@[k] as int) < n,
                forall|v: int| 0 <= v < n
                    ==> #[trigger] deg@[v]
                        == self.missing_preds(v as usize, order@.subrange(0, qhead as int)).len(),
                forall|b: int, u: usize|
                    0 <= b < qhead && #[trigger] self.edge(u, #[trigger] order@[b])
                        ==> order@.subrange(0, b).contains(u),
                forall|k: int| qhead <= k < order@.len()
                    ==> self.missing_preds(
                        #[trigger] order@[k],
                        order@.subrange(0, qhead as int),
                    ).len() == 0,
                forall|v: usize| (v as int) < n
                    && self.missing_preds(v, order@.subrange(0, qhead as int)).len() == 0
                    ==> order@.contains(v),
            decreases n - qhead,
        {
            let u = order[qhead];
            let ghost done_old = order@.subrange(0, qhead as int);
            qhead = qhead + 1;
            let ghost done_new = order@.subrange(0, qhead as int);
            proof {
                assert(done_new =~= done_old.push(u));
                lemma_distinct_bounded_len(order@, n as nat);
            }
            // All predecessors of u are already in the processed prefix.
            proof {
                self.lemma_missing_preds_finite(u, done_old);
                self.missing_preds(u, done_old).lemma_len0_is_empty();
                assert forall|w: usize| #[trigger] self.edge(w, u)
                    implies done_old.contains(w) by {
                    assert(self.pred@[u as int]@.contains(w));
                    assert(!self.missing_preds(u, done_old).contains(w));
                }
            }
            let ghost old_len = order@.len() as int;
            proof {
                let row = self.succ@[u as int]@;
                assert(row.skip(0) =~= row);
                assert forall|v: usize| (v as int) < n && !row.skip(0).contains(v)
                    implies self.missing_preds(v, done_new).len()
                        == self.missing_preds(v, done_old).len() by {
                    assert(!self.edge(u, v));
                    assert(!self.pred@[v as int]@.contains(u));
                    self.lemma_missing_preds_push(v, done_old, u);
                    assert(!self.missing_preds(v, done_old).contains(u));
                    assert(self.missing_preds(v, done_new)
                        =~= self.missing_preds(v, done_old));
                }
            }
            let succ_row_len = self.succ[u].len();
            let mut k: usize = 0;
            while k < succ_row_len
                invariant
                    self.wf(),
                    n == self.n(),
                    deg@.len() == n,
                    (u as int) < n,
                    qhead <= old_len <= order@.len(),
                    succ_row_len == self.succ@[u as int]@.len(),
                    k <= succ_row_len,
                    done_new == order@.subrange(0, qhead as int),
                    done_old == done_new.drop_last(),
                    done_new == done_old.push(u),
                    order@.no_duplicates(),
                    forall|kk: int| 0 <= kk < order@.len()
                        ==> (#[trigger] order@[kk] as int) < n,
                    order@[qhead - 1] == u,
                    forall|w: usize| #[trigger] self.edge(w, u) ==> done_old.contains(w),
                    forall|v: usize| (v as int) < n
                        ==> #[trigger] deg@[v as int]
                            == if self.succ@[u as int]@.skip(k as int).contains(v) {
                                self.missing_preds(v, done_old).len()
                            } else {
                                self.missing_preds(v, done_new).len()
                            },
                    forall|b: int, uu: usize|
                        0 <= b < qhead && #[trigger] self.edge(uu, #[trigger] order@[b])
                            ==> order@.subrange(0, b).contains(uu),
                    forall|kk: int| qhead <= kk < old_len
                        ==> self.missing_preds(#[trigger] order@[kk], done_old).len() == 0,
                    forall|kk: int| old_len <= kk < order@.len()
                        ==> self.missing_preds(#[trigger] order@[kk], done_new).len() == 0,
                    forall|kk: int| old_len <= kk < order@.len()
                        ==> self.succ@[u as int]@.subrange(0, k as int).contains(
                            #[trigger] order@[kk],
                        ),
                    forall|v: usize| (v as int) < n
                        && self.missing_preds(v, done_new).len() == 0
                        && !self.succ@[u as int]@.skip(k as int).contains(v)
                        ==> order@.contains(v),
                decreases succ_row_len - k,
            {
                let w = self.succ[u][k];
                proof {
                    assert(self.succ@[u as int]@[k as int] == w);
                    assert(self.succ@[u as int]@.skip(k as int)[0] == w);
                    assert(self.succ@[u as int]@.skip(k as int).contains(w));
                    assert(self.edge(u, w));
                    assert(self.pred@[w as int]@.contains(u));
                    self.lemma_missing_preds_push(w, done_old, u);
                    self.lemma_missing_preds_finite(w, done_old);
                    // u is a missing predecessor of w before this step.
                    assert(!done_old.contains(u)) by {
                        if done_old.contains(u) {
                            let t = choose|t: int|
                                0 <= t < done_old.len() && done_old[t] == u;
                            assert(order@[t] == u);
                            assert(t != qhead - 1);
                        }
                    }
                    assert(self.missing_preds(w, done_old).contains(u));
                    axiom_set_remove_len(self.missing_preds(w, done_old), u);
                    assert(self.missing_preds(w, done_new).len()
                        == self.missing_preds(w, done_old).len() - 1);
                }
                let dw = deg[w];
                assert(dw >= 1);
                let dw2 = dw - 1;
                deg.set(w, dw2);
                if dw2 == 0 {
                    // w's predecessors are now all processed; w joins the order.
                    proof {
                        assert(!order@.contains(w)) by {
                            if order@.contains(w) {
                                let t = choose|t: int|
                                    0 <= t < order@.len() && order@[t] == w;
                                if t < qhead {
                                    // processed: u would already be in its prefix
                                    assert(self.edge(u, order@[t]));
                                    assert(order@.subrange(0, t).contains(u));
                                    let t2 = choose|t2: int|
                                        0 <= t2 < t && order@.subrange(0, t)[t2] == u;
                                    assert(order@[t2] == u);
                                    assert(t2 != qhead - 1);
                                } else if t < old_len {
                                    // pending since before this pass: every
                                    // predecessor was processed then, yet u was not
                                    assert(self.missing_preds(order@[t], done_old).len() == 0);
                                    self.missing_preds(w, done_old).lemma_len0_is_empty();
                                    assert(!self.missing_preds(w, done_old).contains(u));
                                    assert(false);
                                } else {
                                    // enqueued during this pass: the row would
                                    // then hold w twice
                                    let row = self.succ@[u as int]@;
                                    assert(row.subrange(0, k as int).contains(order@[t]));
                                    let t2 = choose|t2: int|
                                        0 <= t2 < k
                                            && (#[trigger] row.subrange(0, k as int)[t2]) == w;
                                    assert(row[t2] == w);
                                    assert(row[k as int] == w);
                                    assert(false);
                                }
                            }
                        }
                    }
                    let ghost order_before = order@;
                    order.push(w);
                    proof {
                        assert(order@.drop_last() == order_before);
                        assert(order@.subrange(0, qhead as int) =~= done_new);
                        assert(order@.subrange(0, qhead as int) == done_new);
                        assert forall|kk: int| qhead <= kk < old_len
                            implies self.missing_preds(#[trigger] order@[kk], done_old).len() == 0 by {
                            assert(order@[kk] == order_before[kk]);
                        }
                        assert forall|kk: int| old_len <= kk < order@.len()
                            implies self.missing_preds(#[trigger] order@[kk], done_new).len() == 0
                                && self.succ@[u as int]@.subrange(0, k as int + 1).contains(
                                    order@[kk],
                                ) by {
                            let row = self.succ@[u as int]@;
                            if kk < order@.len() - 1 {
                                assert(order@[kk] == order_before[kk]);
                                assert(row.subrange(0, k as int).contains(order_before[kk]));
                                let t = choose|t: int|
                                    0 <= t < k
                                        && (#[trigger] row.subrange(0, k as int)[t])
                                            == order_before[kk];
                                assert(row.subrange(0, k as int + 1)[t] == order_before[kk]);
                            } else {
                                assert(order@[kk] == w);
                                assert(row.subrange(0, k as int + 1)[k as int] == w);
                            }
                        }
                        assert forall|b: int, uu: usize|
                            0 <= b < qhead && #[trigger] self.edge(uu, #[trigger] order@[b])
                            implies order@.subrange(0, b).contains(uu) by {
                            assert(order@[b] == order_before[b]);
                            assert(order@.subrange(0, b) =~= order_before.subrange(0, b));
                        }
                        assert forall|v: usize| (v as int) < n
                            && self.missing_preds(v, done_new).len() == 0
                            && !self.succ@[u as int]@.skip(k as int + 1).contains(v)
                            implies order@.contains(v) by {
                            if v == w {
                                assert(order@[order@.len() - 1] == w);
                            } else if self.succ@[u as int]@.skip(k as int).contains(v) {
                                // v occurs in the yet-unprocessed part at position > 0
                                let t = choose|t: int|
                                    0 <= t < self.succ@[u as int]@.skip(k as int).len()
                                        && (#[trigger] self.succ@[u as int]@.skip(k as int)[t]) == v;
                                assert(t != 0);
                                assert(self.succ@[u as int]@.skip(k as int + 1)[t - 1] == v);
                                assert(false);
                            } else {
                                assert(order_before.contains(v));
                                let t = choose|t: int|
                                    0 <= t < order_before.len() && order_before[t] == v;
                                assert(order@[t] == v);
                            }
                        }
                    }
                } else {
                    proof {
                        assert forall|v: usize| (v as int) < n
                            && self.missing_preds(v, done_new).len() == 0
                            && !self.succ@[u as int]@.skip(k as int + 1).contains(v)
                            implies order@.contains(v) by {
                            if v == w {
                                assert(false);
                            } else if self.succ@[u as int]@.skip(k as int).contains(v) {
                                let t = choose|t: int|
                                    0 <= t < self.succ@[u as int]@.skip(k as int).len()
                                        && (#[trigger] self.succ@[u as int]@.skip(k as int)[t]) == v;
                                assert(t != 0);
                                assert(self.succ@[u as int]@.skip(k as int + 1)[t - 1] == v);
                                assert(false);
                            }
                        }
                        assert forall|kk: int| old_len <= kk < order@.len()
                            implies self.succ@[u as int]@.subrange(0, k as int + 1).contains(
                                #[trigger] order@[kk],
                            ) by {
                            let row = self.succ@[u as int]@;
                            assert(row.subrange(0, k as int).contains(order@[kk]));
                            let t = choose|t: int|
                                0 <= t < k
                                    && (#[trigger] row.subrange(0, k as int)[t]) == order@[kk];
                            assert(row.subrange(0, k as int + 1)[t] == order@[kk]);
                        }
                    }
                }
                proof {
                    assert forall|v: usize| (v as int) < n
                        implies #[trigger] deg@[v as int]
                            == if self.succ@[u as int]@.skip(k as int + 1).contains(v) {
                                self.missing_preds(v, done_old).len()
                            } else {
                                self.missing_preds(v, done_new).len()
                            } by {
                        let row = self.succ@[u as int]@;
                        if v == w {
                            // w handled this step; if it appeared later too the row
                            // would have a duplicate
                            if row.skip(k as int + 1).contains(w) {
                                let t = choose|t: int|
                                    0 <= t < row.skip(k as int + 1).len()
                                        && (#[trigger] row.skip(k as int + 1)[t]) == w;
                                assert(row[k as int + 1 + t] == w);
                                assert(row[k as int] == w);
                                assert(false);
                            }
                        } else {
                            if row.skip(k as int).contains(v) && !row.skip(k as int + 1).contains(v) {
                                let t = choose|t: int|
                                    0 <= t < row.skip(k as int).len() && (#[trigger] row.skip(k as int)[t]) == v;
                                assert(t != 0);
                                assert(row.skip(k as int + 1)[t - 1] == v);
                                assert(false);
                            }
                            if !row.skip(k as int).contains(v) && row.skip(k as int + 1).contains(v) {
                                let t = choose|t: int|
                                    0 <= t < row.skip(k as int + 1).len()
                                        && (#[trigger] row.skip(k as int + 1)[t]) == v;
                                assert(row.skip(k as int)[t + 1] == v);
                                assert(false);
                            }
                            if !row.contains(v) {
                                assert(!self.edge(u, v));
                                assert(!self.pred@[v as int]@.contains(u));
                                self.lemma_missing_preds_push(v, done_old, u);
                                assert(!self.missing_preds(v, done_old).contains(u));
                                assert(self.missing_preds(v, done_new)
                                    =~= self.missing_preds(v, done_old));
                            } else {
                                self.lemma_missing_preds_push(v, done_old, u);
                                if !self.missing_preds(v, done_old).contains(u) {
                                    assert(self.missing_preds(v, done_new)
                                        =~= self.missing_preds(v, done_old));
                                }
                            }
                        }
                    }
                }
                k = k + 1;
            }
            proof {
                assert(self.succ@[u as int]@.skip(succ_row_len as int).len() == 0);
                assert forall|v: usize| (v as int) < n
                    && self.missing_preds(v, done_new).len() == 0
                    implies order@.contains(v) by {
                    assert(!self.succ@[u as int]@.skip(succ_row_len as int).contains(v));
                }
                assert forall|v: int| 0 <= v < n
                    implies #[trigger] deg@[v]
                        == self.missing_preds(v as usize, order@.subrange(0, qhead as int)).len() by {
                    assert(!self.succ@[u as int]@.skip(succ_row_len as int).contains(v as usize));
                }
                assert forall|kk: int| qhead <= kk < order@.len()
                    implies self.missing_preds(
                        #[trigger] order@[kk],
                        order@.subrange(0, qhead as int),
                    ).len() == 0 by {
                    if kk < old_len {
                        self.lemma_missing_zero_push(order@[kk], done_old, u);
                    }
                }
            }
        }
        proof {
            lemma_distinct_bounded_len(order@, n as nat);
            assert(order@.subrange(0, order@.len() as int) =~= order@);
            if order@.len() == n {
                assert forall|v: usize| (v as int) < self.n() implies order@.contains(v) by {
                    lemma_distinct_bounded_complete(order@, n as nat, v);
                }
            }
            if order@.len() < n {
                // Some node is missing; every missing node still has a missing
                // predecessor, which is itself missing from the order.
                let nodes = Set::new(|v: usize| (v as int) < n);
                let stuck = Set::new(|v: usize| (v as int) < n && !order@.contains(v));
                lemma_node_set(n as nat);
                assert(stuck.subset_of(nodes));
                lemma_len_subset(stuck, nodes);
                assert(exists|v0: usize| stuck.contains(v0)) by {
                    order@.unique_seq_to_set();
                    if forall|v: usize| (v as int) < n ==> order@.contains(v) {
                        assert(nodes.subset_of(order@.to_set())) by {
                            assert forall|v: usize| nodes.contains(v)
                                implies order@.to_set().contains(v) by {
                                assert(order@.contains(v));
                            }
                        }
                        lemma_len_subset(nodes, order@.to_set());
                        assert(false);
                    }
                    let v0 = choose|v0: usize| (v0 as int) < n && !order@.contains(v0);
                    assert(stuck.contains(v0));
                }
                assert forall|v: usize| #[trigger] stuck.contains(v)
                    implies (v as int) < self.n()
                        && exists|u: usize| stuck.contains(u) && self.edge(u, v) by {
                    assert(self.missing_preds(v, order@).len() != 0);
                    self.lemma_missing_preds_finite(v, order@);
                    if self.missing_preds(v, order@).is_empty() {
                        assert(self.missing_preds(v, order@).len() == 0);
                        assert(false);
                    }
                    let u = self.missing_preds(v, order@).choose();
                    assert(self.missing_preds(v, order@).contains(u));
                    assert(self.pred@[v as int]@.contains(u));
                    assert(self.edge(u, v));
                    assert(stuck.contains(u)) by {
                        assert((u as int) < self.n());
                        assert(!order@.contains(u));
                    }
                }
                self.lemma_stuck_set_has_cycle(stuck);
            }
        }
        order
    }
}

impl Digraph {
    /// An order that is complete, duplicate-free and lists predecessors
    /// first certifies that the graph is acyclic.
    pub proof fn lemma_complete_order_acyclic(self, ord: Seq<usize>)
        requires
            self.wf(),
            ord.no_duplicates(),
            forall|k: int| 0 <= k < ord.len() ==> (#[trigger] ord[k] as int) < self.n(),
            forall|b: int, u: usize|
                0 <= b < ord.len() && #[trigger] self.edge(u, #[trigger] ord[b])
                    ==> ord.subrange(0, b).contains(u),
            forall|v: usize| (v as int) < self.n() ==> ord.contains(v),
        ensures
            !self.has_cycle(),
    {
        if self.has_cycle() {
            let p = choose|p: Seq<usize>| self.is_cycle(p);
            // drop the closing node; walk positions never decrease up to the
            // next-to-last node, yet the final edge demands a strict decrease
            let q = p.subrange(0, p.len() - 1);
            self.lemma_subpath(p, 0, p.len() - 1);
            let last = p[p.len() - 1];
            let prev = p[p.len() - 2];
            assert(self.edge(prev, last));
            assert(q[0] == p[0]);
            assert(q[q.len() - 1] == prev);
            self.lemma_walk_position_increase(ord, q);
            lemma_seq_index_of(ord, last);
            let b = seq_index_of(ord, last);
            assert(ord.subrange(0, b).contains(prev));
            let a = choose|a: int| 0 <= a < b && ord.subrange(0, b)[a] == prev;
            assert(ord[a] == prev);
            lemma_seq_index_of(ord, prev);
            let iprev = seq_index_of(ord, prev);
            assert(iprev == a);
            let i0 = seq_index_of(ord, q[0]);
            assert(i0 <= iprev);
            assert(ord[i0] == p[0]);
            assert(ord[b] == last);
            assert(p[0] == last);
            assert(i0 == b);
            assert(false);
        }
    }

    /// Positions in a predecessor-closed order do not decrease along a walk.
    proof fn lemma_walk_position_increase(self, ord: Seq<usize>, q: Seq<usize>)
        requires
            self.wf(),
            ord.no_duplicates(),
            forall|b: int, u: usize|
                0 <= b < ord.len() && #[trigger] self.edge(u, #[trigger] ord[b])
                    ==> ord.subrange(0, b).contains(u),
            forall|v: usize| (v as int) < self.n() ==> ord.contains(v),
            self.is_path(q),
            q.len() >= 1,
            (q[0] as int) < self.n(),
        ensures
            ord.contains(q[0]),
            ord.contains(q[q.len() - 1]),
            seq_index_of(ord, q[0]) <= seq_index_of(ord, q[q.len() - 1]),
        decreases q.len(),
    {
        if q.len() == 1 {
            lemma_seq_index_of(ord, q[0]);
        } else {
            let r = q.subrange(0, q.len() - 1);
            self.lemma_subpath(q, 0, q.len() - 1);
            assert(r[0] == q[0]);
            self.lemma_walk_position_increase(ord, r);
            let prev = q[q.len() - 2];
            let last = q[q.len() - 1];
            assert(r[r.len() - 1] == prev);
            assert(self.edge(prev, last));
            lemma_seq_index_of(ord, last);
            let b = seq_index_of(ord, last);
            assert(ord.subrange(0, b).contains(prev));
            let a = choose|a: int| 0 <= a < b && ord.subrange(0, b)[a] == prev;
            assert(ord[a] == prev);
            lemma_seq_index_of(ord, prev);
            let ip = seq_index_of(ord, prev);
            assert(ord[ip] == prev);
            assert(ip == a || ord[ip] == ord[a]);
            assert(ip == a);
            assert(ip < b);
        }
    }
}

impl Digraph {
    /// Breadth-first search: marks exactly the nodes reachable from `start`
    /// along one or more edges.
    pub fn reach_from(&self, start: usize) -> (r: Vec<bool>)
        requires
            self.wf(),
            (start as int) < self.n(),
        ensures
            r@.len() == self.n(),
            forall|v: usize| (v as int) < self.n()
                ==> (r@[v as int] <==> self.reaches(start, v)),
    {
        let n = self.succ.len();
        let mut marks: Vec<bool> = Vec::new();
        let mut i: usize = 0;
        while i < n
            invariant
                i <= n,
                marks@.len() == i,
                forall|k: int| 0 <= k < i ==> !(#[trigger] marks@[k]),
            decreases n - i,
        {
            marks.push(false);
            i = i + 1;
        }
        let mut work: Vec<usize> = Vec::new();
        work.push(start);
        let mut qhead: usize = 0;
        while qhead < work.len()
            invariant
                self.wf(),
                n == self.n(),
                (start as int) < n,
                marks@.len() == n,
                work@.len() >= 1,
                work@[0] == start,
                qhead <= work@.len(),
                forall|k: int| 0 <= k < work@.len() ==> (#[trigger] work@[k] as int) < n,
                forall|v: usize| (v as int) < n && marks@[v as int]
                    ==> self.reaches(start, v),
                forall|k: int| 1 <= k < work@.len() ==> marks@[#[trigger] work@[k] as int],
                forall|v: usize| (v as int) < n && marks@[v as int]
                    ==> work@.skip(1).contains(v),
                work@.skip(1).no_duplicates(),
                forall|a: int, w: usize|
                    0 <= a < qhead && #[trigger] self.edge(#[trigger] work@[a], w)
                        ==> marks@[w as int],
            decreases n + 1 - qhead,
        {
            proof {
                lemma_distinct_bounded_len(work@.skip(1), n as nat);
            }
            let u = work[qhead];
            let ghost qhead_old = qhead as int;
            qhead = qhead + 1;
            let row_len = self.succ[u].len();
            let mut k: usize = 0;
            while k < row_len
                invariant
                    self.wf(),
                    n == self.n(),
                    (start as int) < n,
                    (u as int) < n,
                    marks@.len() == n,
                    work@.len() >= 1,
                    work@[0] == start,
                    0 <= qhead_old,
                    qhead == qhead_old + 1,
                    qhead <= work@.len(),
                    work@[qhead_old] == u,
                    row_len == self.succ@[u as int]@.len(),
                    k <= row_len,
                    forall|kk: int| 0 <= kk < work@.len()
                        ==> (#[trigger] work@[kk] as int) < n,
                    forall|v: usize| (v as int) < n && marks@[v as int]
                        ==> self.reaches(start, v),
                    forall|kk: int| 1 <= kk < work@.len()
                        ==> marks@[#[trigger] work@[kk] as int],
                    forall|v: usize| (v as int) < n && marks@[v as int]
                        ==> work@.skip(1).contains(v),
                    work@.skip(1).no_duplicates(),
                    forall|a: int, w: usize|
                        0 <= a < qhead_old && #[trigger] self.edge(#[trigger] work@[a], w)
                            ==> marks@[w as int],
                    forall|t: int| 0 <= t < k
                        ==> marks@[#[trigger] self.succ@[u as int]@[t] as int],
                decreases row_len - k,
            {
                let w = self.succ[u][k];
                proof {
                    assert(self.succ@[u as int]@.contains(w)) by {
                        assert(self.succ@[u as int]@[k as int] == w);
                    }
                    assert(self.edge(u, w));
                }
                if !marks[w] {
                    proof {
                        // a path from start reaching w
                        if qhead_old == 0 {
                            let p = seq![start, w];
                            assert(p[0] == start && p[1] == w);
                            assert(self.is_path(p)) by {
                                assert(p[0] == u);
                            }
                            assert(self.reaches(start, w));
                        } else {
                            assert(marks@[u as int]) by {
                                assert(work@[qhead_old] == u);
                            }
                            assert(self.reaches(start, u));
                            let p0 = choose|p0: Seq<usize>|
                                self.is_path(p0) && p0.len() >= 2 && p0[0] == start
                                    && p0[p0.len() - 1] == u;
                            let p = p0.push(w);
                            assert(self.is_path(p)) by {
                                assert forall|t: int| 0 <= t < p.len() - 1
                                    implies self.edge(#[trigger] p[t], p[t + 1]) by {
                                    if t < p0.len() - 1 {
                                        assert(p[t] == p0[t]);
                                        assert(p[t + 1] == p0[t + 1]);
                                    } else {
                                        assert(p[t] == u);
                                        assert(p[t + 1] == w);
                                    }
                                }
                            }
                            assert(p[0] == start && p[p.len() - 1] == w);
                            assert(self.reaches(start, w));
                        }
                    }
                    marks.set(w, true);
                    let ghost work_before = work@;
                    work.push(w);
                    proof {
                        assert(work@[qhead_old] == work_before[qhead_old]);
                        assert(work@.skip(1) =~= work_before.skip(1).push(w));
                        assert(!work_before.skip(1).contains(w));
                        lemma_push_no_dup(work_before.skip(1), w);
                        assert forall|v: usize| (v as int) < n && marks@[v as int]
                            implies work@.skip(1).contains(v) by {
                            if v == w {
                                assert(work@.skip(1)[work@.skip(1).len() - 1] == w);
                            } else {
                                assert(work_before.skip(1).contains(v));
                                let t = choose|t: int|
                                    0 <= t < work_before.skip(1).len()
                                        && work_before.skip(1)[t] == v;
                                assert(work@.skip(1)[t] == v);
                            }
                        }
                        assert forall|a: int, ww: usize|
                            0 <= a < qhead_old
                                && #[trigger] self.edge(#[trigger] work@[a], ww)
                            implies marks@[ww as int] by {
                            assert(work@[a] == work_before[a]);
                        }
                    }
                }
                k = k + 1;
            }
            proof {
                assert forall|a: int, w: usize|
                    0 <= a < qhead && #[trigger] self.edge(#[trigger] work@[a], w)
                    implies marks@[w as int] by {
                    if a == qhead_old {
                        assert(work@[a] == u);
                        assert(self.succ@[u as int]@.contains(w));
                        let t = choose|t: int|
                            0 <= t < self.succ@[u as int]@.len()
                                && self.succ@[u as int]@[t] == w;
                    }
                }
            }
        }
        proof {
            assert forall|v: usize| (v as int) < n && self.reaches(start, v)
                implies marks@[v as int] by {
                let p = choose|p: Seq<usize>|
                    self.is_path(p) && p.len() >= 2 && p[0] == start
                        && p[p.len() - 1] == v;
                self.lemma_bfs_complete(marks@, work@, start, p);
            }
        }
        marks
    }

    /// Once every discovered node has been processed, every node reachable
    /// from the start is marked.
    proof fn lemma_bfs_complete(
        self,
        marks: Seq<bool>,
        work: Seq<usize>,
        start: usize,
        p: Seq<usize>,
    )
        requires
            self.wf(),
            marks.len() == self.n(),
            work.len() >= 1,
            work[0] == start,
            forall|k: int| 0 <= k < work.len() ==> (#[trigger] work[k] as int) < self.n(),
            forall|v: usize| (v as int) < self.n() && marks[v as int]
                ==> work.contains(v),
            forall|a: int, w: usize|
                0 <= a < work.len() && #[trigger] self.edge(#[trigger] work[a], w)
                    ==> marks[w as int],
            self.is_path(p),
            p.len() >= 2,
            p[0] == start,
        ensures
            marks[p[p.len() - 1] as int],
        decreases p.len(),
    {
        let last = p[p.len() - 1];
        let prev = p[p.len() - 2];
        assert(self.edge(prev, last));
        if p.len() == 2 {
            assert(prev == start);
            assert(work[0] == prev);
        } else {
            let q = p.subrange(0, p.len() - 1);
            self.lemma_subpath(p, 0, p.len() - 1);
            assert(q[0] == start);
            assert(q[q.len() - 1] == prev);
            self.lemma_bfs_complete(marks, work, start, q);
            assert(marks[prev as int]);
            assert(work.contains(prev));
            let a = choose|a: int| 0 <= a < work.len() && work[a] == prev;
            assert(self.edge(work[a], last));
        }
    }
}

/// The position of `v` in `s` (meaningful when `s` contains `v` exactly once).
pub open spec fn seq_index_of(s: Seq<usize>, v: usize) -> int {
    choose|i: int| 0 <= i < s.len() && s[i] == v
}

proof fn lemma_seq_index_of(s: Seq<usize>, v: usize)
    requires
        s.contains(v),
        s.no_duplicates(),
    ensures
        0 <= seq_index_of(s, v) < s.len(),
        s[seq_index_of(s, v)] == v,
        forall|i: int| 0 <= i < s.len() && s[i] == v ==> i == seq_index_of(s, v),
{
    let i0 = choose|i: int| 0 <= i < s.len() && s[i] == v;
    assert(s[seq_index_of(s, v)] == v);
}

} // verus!
