//! The dependency resolver: builds a graph from per-service dependency
//! declarations, rejects unknown targets and cycles, and answers startup
//! order, shutdown order, cascade sets and dependency-gating queries.

use crate::dependency::{Dependency, DependencyCondition};
use crate::graph::{contains_usize, Digraph};
use crate::ipc::ServiceStatus;
use crate::strutil::{find_name, spec_name_in};
use vstd::prelude::*;
use vstd::string::StringExecFns;

verus! {

/// Why a dependency graph could not be built or used.
#[derive(Debug)]
pub enum DagError {
    CircularDependency(String),
    UnknownService(String),
    OrderingError(String),
}

impl DagError {
    /// The human-readable description of the error.
    pub fn message(&self) -> (r: String)
        ensures
            match self {
                DagError::CircularDependency(s) =>
                    r@ == "Circular dependency detected involving: "@ + s@,
                DagError::UnknownService(s) => r@ == "Unknown service: "@ + s@,
                DagError::OrderingError(s) => r@ == "Cannot determine order: "@ + s@,
            },
    {
        let mut m = String::new();
        match self {
            DagError::CircularDependency(s) => {
                m.append("Circular dependency detected involving: ");
                m.append(s.as_str());
            },
            DagError::UnknownService(s) => {
                m.append("Unknown service: ");
                m.append(s.as_str());
            },
            DagError::OrderingError(s) => {
                m.append("Cannot determine order: ");
                m.append(s.as_str());
            },
        }
        m
    }
}

/// The declared services all have distinct names.
pub open spec fn input_distinct(services: Seq<(String, Vec<Dependency>)>) -> bool {
    forall|i: int, j: int|
        0 <= i < services.len() && 0 <= j < services.len() && i != j
            ==> (#[trigger] services[i].0)@ != (#[trigger] services[j].0)@
}

/// Whether some declared service carries `name`.
pub open spec fn input_known(services: Seq<(String, Vec<Dependency>)>, name: Seq<char>) -> bool {
    exists|i: int| 0 <= i < services.len() && (#[trigger] services[i].0)@ == name
}

/// Every dependency names a declared service.
pub open spec fn input_all_known(services: Seq<(String, Vec<Dependency>)>) -> bool {
    forall|j: int, k: int|
        0 <= j < services.len() && 0 <= k < services[j].1@.len()
            ==> input_known(services, (#[trigger] services[j].1@[k]).spec_service())
}

/// Service `j` declares a dependency on service `i`.
pub open spec fn input_edge(
    services: Seq<(String, Vec<Dependency>)>,
    i: usize,
    j: usize,
) -> bool {
    &&& (i as int) < services.len()
    &&& (j as int) < services.len()
    &&& exists|k: int|
        0 <= k < services[j as int].1@.len()
            && (#[trigger] services[j as int].1@[k]).spec_service()
                == services[i as int].0@
}

/// A dependency walk of the declarations that returns to its start.
pub open spec fn input_is_cycle(
    services: Seq<(String, Vec<Dependency>)>,
    p: Seq<usize>,
) -> bool {
    &&& p.len() >= 2
    &&& p[0] == p[p.len() - 1]
    &&& forall|t: int| 0 <= t < p.len() - 1 ==> input_edge(services, #[trigger] p[t], p[t + 1])
}

/// The declarations contain a directed dependency cycle.
pub open spec fn input_has_cycle(services: Seq<(String, Vec<Dependency>)>) -> bool {
    exists|p: Seq<usize>| input_is_cycle(services, p)
}

/// The resolved dependency graph of a workspace. Built only from inputs
/// whose dependency targets all exist and whose relation is acyclic.
pub struct DependencyGraph {
    /// Service names, in declaration order.
    pub names: Vec<String>,
    /// Reverse edges: per service, its declared dependencies.
    pub deps: Vec<Vec<Dependency>>,
    /// Index graph; an edge runs from a dependency to its dependent.
    pub g: Digraph,
    /// A complete topological order of the service indices.
    pub order: Vec<usize>,
}

impl DependencyGraph {
    /// Number of services.
    pub open spec fn n(self) -> int {
        self.names@.len() as int
    }

    /// Service `j` depends on service `i`, by the stored declarations.
    pub open spec fn dep_edge_model(self, i: usize, j: usize) -> bool {
        &&& (i as int) < self.n()
        &&& (j as int) < self.n()
        &&& exists|k: int|
            0 <= k < self.deps@[j as int]@.len()
                && (#[trigger] self.deps@[j as int]@[k]).spec_service()
                    == self.names@[i as int]@
    }

    pub open spec fn wf(self) -> bool {
        &&& self.g.wf()
        &&& self.g.n() == self.n()
        &&& self.deps@.len() == self.n()
        &&& forall|i: int, j: int|
            0 <= i < self.n() && 0 <= j < self.n() && i != j
                ==> (#[trigger] self.names@[i])@ != (#[trigger] self.names@[j])@
        &&& forall|i: usize, j: usize|
            (i as int) < self.n() && (j as int) < self.n()
                ==> (#[trigger] self.g.edge(i, j) <==> self.dep_edge_model(i, j))
        &&& forall|j: int, k: int|
            0 <= j < self.n() && 0 <= k < self.deps@[j]@.len()
                ==> spec_name_in(self.names@, (#[trigger] self.deps@[j]@[k]).spec_service())
        &&& !self.g.has_cycle()
        &&& self.order@.no_duplicates()
        &&& self.order@.len() == self.n()
        &&& forall|k: int| 0 <= k < self.order@.len()
            ==> (#[trigger] self.order@[k] as int) < self.n()
        &&& forall|b: int, u: usize|
            0 <= b < self.order@.len() && #[trigger] self.g.edge(u, #[trigger] self.order@[b])
                ==> self.order@.subrange(0, b).contains(u)
        &&& forall|v: usize| (v as int) < self.n() ==> self.order@.contains(v)
    }

    /// The startup order as a sequence of names.
    pub open spec fn spec_startup_names(self) -> Seq<String> {
        self.order@.map_values(|i: usize| self.names@[i as int])
    }

    /// Indices `i`, `j` witness that the service named `to` is a transitive
    /// dependent of the one named `from`.
    pub open spec fn cascade_witness(self, from: Seq<char>, to: Seq<char>, i: usize, j: usize) -> bool {
        &&& (i as int) < self.n()
        &&& (j as int) < self.n()
        &&& self.names@[i as int]@ == from
        &&& self.names@[j as int]@ == to
        &&& self.g.reaches(i, j)
    }

    /// `to` is a transitive dependent of `from`.
    pub open spec fn spec_cascades(self, from: Seq<char>, to: Seq<char>) -> bool {
        exists|i: usize, j: usize| self.cascade_witness(from, to, i, j)
    }

    /// `s` names a transitive dependent of `from` witnessed through index
    /// `idx` of `from`.
    pub open spec fn cascade_entry(self, from: Seq<char>, idx: usize, s: String) -> bool {
        exists|w: usize| self.cascade_witness(from, s@, idx, w)
    }

    /// Create a new dependency graph from service definitions. Rejects a
    /// dependency on an undeclared service, and any set of declarations
    /// whose dependency relation has a directed cycle.
    pub fn new(services: &Vec<(String, Vec<Dependency>)>) -> (r: Result<
        DependencyGraph,
        DagError,
    >)
        requires
            input_distinct(services@),
        ensures
            match r {
                Ok(g) => {
                    &&& g.wf()
                    &&& g.n() == services@.len()
                    &&& forall|j: int| 0 <= j < services@.len()
                        ==> #[trigger] g.names@[j] == services@[j].0
                    &&& forall|j: int| 0 <= j < services@.len()
                        ==> #[trigger] g.deps@[j]@ == services@[j].1@
                    &&& !input_has_cycle(services@)
                },
                Err(DagError::UnknownService(s)) => {
                    &&& !input_all_known(services@)
                    &&& !input_known(services@, s@)
                },
                Err(DagError::CircularDependency(msg)) => {
                    &&& input_all_known(services@)
                    &&& input_has_cycle(services@)
                    &&& exists|w: int|
                        0 <= w < services@.len() && msg@ == "cycle through service "@
                            + (#[trigger] services@[w].0)@
                },
                Err(DagError::OrderingError(_)) => false,
            },
            // cycle rejection: declarations that form a cycle never build
            input_all_known(services@) && input_has_cycle(services@)
                ==> (r matches Err(e) && e is CircularDependency),
    {
        let n = services.len();
        let mut names: Vec<String> = Vec::new();
        let mut deps: Vec<Vec<Dependency>> = Vec::new();
        let mut j: usize = 0;
        while j < n
            invariant
                j <= n,
                n == services@.len(),
                names@.len() == j,
                deps@.len() == j,
                forall|t: int| 0 <= t < j ==> #[trigger] names@[t] == services@[t].0,
                forall|t: int| 0 <= t < j ==> #[trigger] deps@[t]@ == services@[t].1@,
            decreases n - j,
        {
            names.push(services[j].0.clone());
            let mut row: Vec<Dependency> = Vec::new();
            let mut k: usize = 0;
            let row_len = services[j].1.len();
            while k < row_len
                invariant
                    k <= row_len,
                    j < n,
                    n == services@.len(),
                    row_len == services@[j as int].1@.len(),
                    row@.len() == k,
                    forall|t: int| 0 <= t < k ==> #[trigger] row@[t] == services@[j as int].1@[t],
                decreases row_len - k,
            {
                row.push(services[j].1[k].duplicate());
                k = k + 1;
            }
            proof {
                assert(row@ =~= services@[j as int].1@);
            }
            deps.push(row);
            j = j + 1;
        }
        let mut g = Digraph::new(n);
        let mut b: usize = 0;
        while b < n
            invariant
                b <= n,
                n == services@.len(),
                names@.len() == n,
                deps@.len() == n,
                forall|t: int| 0 <= t < n ==> #[trigger] names@[t] == services@[t].0,
                forall|t: int| 0 <= t < n ==> #[trigger] deps@[t]@ == services@[t].1@,
                input_distinct(services@),
                g.wf(),
                g.n() == n,
                forall|x: usize, y: usize|
                    #[trigger] g.edge(x, y)
                        <==> ((y as int) < b && input_edge(services@, x, y)),
                forall|jj: int, kk: int|
                    0 <= jj < b && 0 <= kk < services@[jj].1@.len()
                        ==> input_known(
                            services@,
                            (#[trigger] services@[jj].1@[kk]).spec_service(),
                        ),
            decreases n - b,
        {
            let row_len = deps[b].len();
            let mut k: usize = 0;
            while k < row_len
                invariant
                    k <= row_len,
                    b < n,
                    n == services@.len(),
                    names@.len() == n,
                    deps@.len() == n,
                    forall|t: int| 0 <= t < n ==> #[trigger] names@[t] == services@[t].0,
                    forall|t: int| 0 <= t < n ==> #[trigger] deps@[t]@ == services@[t].1@,
                    input_distinct(services@),
                    row_len == services@[b as int].1@.len(),
                    g.wf(),
                    g.n() == n,
                    forall|x: usize, y: usize|
                        #[trigger] g.edge(x, y)
                            <==> (((y as int) < b && input_edge(services@, x, y))
                                || ((y as int) == b && (x as int) < n && exists|t: int|
                                    0 <= t < k
                                        && (#[trigger] services@[b as int].1@[t]).spec_service()
                                            == services@[x as int].0@)),
                    forall|jj: int, kk: int|
                        0 <= jj < b && 0 <= kk < services@[jj].1@.len()
                            ==> input_known(
                                services@,
                                (#[trigger] services@[jj].1@[kk]).spec_service(),
                            ),
                    forall|kk: int| 0 <= kk < k
                        ==> input_known(
                            services@,
                            (#[trigger] services@[b as int].1@[kk]).spec_service(),
                        ),
                decreases row_len - k,
            {
                let target = deps[b][k].service_name();
                proof {
                    assert(deps@[b as int]@[k as int] == services@[b as int].1@[k as int]);
                }
                match find_name(&names, target) {
                    Some(i) => {
                        proof {
                            assert(names@[i as int] == services@[i as int].0);
                            assert(input_known(services@, target@)) by {
                                assert(services@[i as int].0@ == target@);
                            }
                        }
                        let ghost g_before = g;
                        g.add_edge(i, b);
                        proof {
                            assert forall|x: usize, y: usize| #[trigger] g.edge(x, y)
                                implies (((y as int) < b && input_edge(services@, x, y))
                                    || ((y as int) == b && (x as int) < n && exists|t: int|
                                        0 <= t < k + 1
                                            && (#[trigger] services@[b as int].1@[t])
                                                .spec_service() == services@[x as int].0@)) by {
                                if g_before.edge(x, y) {
                                    if (y as int) == b {
                                        let t = choose|t: int|
                                            0 <= t < k
                                                && (#[trigger] services@[b as int].1@[t])
                                                    .spec_service()
                                                    == services@[x as int].0@;
                                        assert(0 <= t < k + 1);
                                    }
                                } else {
                                    assert(x == i && y == b);
                                    assert(services@[b as int].1@[k as int].spec_service()
                                        == services@[i as int].0@);
                                }
                            }
                            assert forall|x: usize, y: usize|
                                (((y as int) < b && input_edge(services@, x, y))
                                    || ((y as int) == b && (x as int) < n && exists|t: int|
                                        0 <= t < k + 1
                                            && (#[trigger] services@[b as int].1@[t])
                                                .spec_service() == services@[x as int].0@))
                                implies #[trigger] g.edge(x, y) by {
                                if (y as int) < b {
                                    assert(g_before.edge(x, y));
                                } else {
                                    let t = choose|t: int|
                                        0 <= t < k + 1
                                            && (#[trigger] services@[b as int].1@[t])
                                                .spec_service() == services@[x as int].0@;
                                    if t < k {
                                        assert(g_before.edge(x, y));
                                    } else {
                                        // the edge added this step; names are distinct,
                                        // so x must be i
                                        assert(services@[b as int].1@[k as int].spec_service()
                                            == services@[x as int].0@);
                                        assert(services@[i as int].0@
                                            == services@[x as int].0@);
                                        if x != i {
                                            assert(false);
                                        }
                                    }
                                }
                            }
                        }
                    },
                    None => {
                        proof {
                            assert(!input_known(services@, target@)) by {
                                if input_known(services@, target@) {
                                    let i0 = choose|i0: int|
                                        0 <= i0 < services@.len()
                                            && (#[trigger] services@[i0].0)@ == target@;
                                    assert(names@[i0]@ == target@);
                                    assert(spec_name_in(names@, target@));
                                }
                            }
                            assert(!input_all_known(services@)) by {
                                assert(services@[b as int].1@[k as int].spec_service()
                                    == target@);
                            }
                        }
                        return Err(DagError::UnknownService(target.to_owned()));
                    },
                }
                k = k + 1;
            }
            proof {
                assert forall|x: usize, y: usize| #[trigger] g.edge(x, y)
                    implies ((y as int) < b + 1 && input_edge(services@, x, y)) by {
                    if (y as int) == b {
                        assert(input_edge(services@, x, y));
                    }
                }
                assert forall|x: usize, y: usize|
                    ((y as int) < b + 1 && input_edge(services@, x, y))
                    implies #[trigger] g.edge(x, y) by {
                    if (y as int) == b {
                        let t = choose|t: int|
                            0 <= t < services@[b as int].1@.len()
                                && (#[trigger] services@[b as int].1@[t]).spec_service()
                                    == services@[x as int].0@;
                        assert(0 <= t < row_len);
                    }
                }
            }
            b = b + 1;
        }
        proof {
            assert(input_all_known(services@));
        }
        let order = g.kahn_order();
        if order.len() < n {
            // find a service that the sort could not place: it either lies
            // on a cycle or depends on one
            let mut v: usize = 0;
            let mut witness: usize = 0;
            let mut found = false;
            while v < n
                invariant
                    v <= n,
                    n == names@.len(),
                    n == services@.len(),
                    order@.no_duplicates(),
                    order@.len() < n,
                    forall|k: int| 0 <= k < order@.len()
                        ==> (#[trigger] order@[k] as int) < n,
                    found ==> (witness as int) < n,
                    !found ==> forall|t: usize| t < v ==> order@.contains(t),
                decreases n - v,
            {
                if !found && !contains_usize(&order, v) {
                    witness = v;
                    found = true;
                }
                v = v + 1;
            }
            proof {
                // some service is always missing from an incomplete order
                if !found {
                    crate::graph::lemma_contained_all_len(order@, n as nat);
                    assert(false);
                }
                // the graph has a cycle; transfer it to the declarations
                let p = choose|p: Seq<usize>| g.is_cycle(p);
                assert(input_is_cycle(services@, p)) by {
                    assert forall|t: int| 0 <= t < p.len() - 1
                        implies input_edge(services@, #[trigger] p[t], p[t + 1]) by {
                        assert(g.edge(p[t], p[t + 1]));
                    }
                }
            }
            let mut m = String::new();
            m.append("cycle through service ");
            m.append(names[witness].as_str());
            proof {
                assert(m@ == "cycle through service "@ + services@[witness as int].0@);
            }
            return Err(DagError::CircularDependency(m));
        }
        proof {
            assert forall|v: usize| (v as int) < n implies order@.contains(v) by {}
            g.lemma_complete_order_acyclic(order@);
            assert(!input_has_cycle(services@)) by {
                if input_has_cycle(services@) {
                    let p = choose|p: Seq<usize>| input_is_cycle(services@, p);
                    assert(g.is_cycle(p)) by {
                        assert forall|t: int| 0 <= t < p.len() - 1
                            implies g.edge(#[trigger] p[t], p[t + 1]) by {
                            assert(input_edge(services@, p[t], p[t + 1]));
                        }
                    }
                }
            }
        }
        let result = DependencyGraph { names, deps, g, order };
        proof {
            assert forall|j2: int, k2: int|
                0 <= j2 < result.n() && 0 <= k2 < result.deps@[j2]@.len()
                implies spec_name_in(
                    result.names@,
                    (#[trigger] result.deps@[j2]@[k2]).spec_service(),
                ) by {
                assert(input_known(
                    services@,
                    services@[j2].1@[k2].spec_service(),
                ));
                let i0 = choose|i0: int|
                    0 <= i0 < services@.len()
                        && (#[trigger] services@[i0].0)@
                            == services@[j2].1@[k2].spec_service();
                assert(result.names@[i0]@ == services@[j2].1@[k2].spec_service());
            }
            assert forall|i: usize, j2: usize|
                (i as int) < result.n() && (j2 as int) < result.n()
                implies (#[trigger] result.g.edge(i, j2)
                    <==> result.dep_edge_model(i, j2)) by {
                if result.g.edge(i, j2) {
                    assert(input_edge(services@, i, j2));
                    let t = choose|t: int|
                        0 <= t < services@[j2 as int].1@.len()
                            && (#[trigger] services@[j2 as int].1@[t]).spec_service()
                                == services@[i as int].0@;
                    assert(result.deps@[j2 as int]@[t].spec_service()
                        == result.names@[i as int]@);
                }
                if result.dep_edge_model(i, j2) {
                    let t = choose|t: int|
                        0 <= t < result.deps@[j2 as int]@.len()
                            && (#[trigger] result.deps@[j2 as int]@[t]).spec_service()
                                == result.names@[i as int]@;
                    assert(services@[j2 as int].1@[t].spec_service()
                        == services@[i as int].0@);
                    assert(input_edge(services@, i, j2));
                }
            }
            assert forall|i: int, j2: int|
                0 <= i < result.n() && 0 <= j2 < result.n() && i != j2
                implies (#[trigger] result.names@[i])@
                    != (#[trigger] result.names@[j2])@ by {
                assert(result.names@[i] == services@[i].0);
                assert(result.names@[j2] == services@[j2].0);
            }
            assert(result.wf());
        }
        Ok(result)
    }

    /// Get startup order: a topological order of the service names. On a
    /// successfully built graph this always succeeds.
    pub fn startup_order(&self) -> (r: Result<Vec<String>, DagError>)
        requires
            self.wf(),
        ensures
            r is Ok,
            r matches Ok(o) ==> o@ == self.spec_startup_names(),
    {
        let mut out: Vec<String> = Vec::new();
        let mut k: usize = 0;
        while k < self.order.len()
            invariant
                self.wf(),
                k <= self.order@.len(),
                out@.len() == k,
                forall|t: int| 0 <= t < k
                    ==> #[trigger] out@[t] == self.names@[self.order@[t] as int],
            decreases self.order@.len() - k,
        {
            let idx = self.order[k];
            out.push(self.names[idx].clone());
            k = k + 1;
        }
        proof {
            assert(out@ =~= self.spec_startup_names());
        }
        Ok(out)
    }

    /// Get shutdown order: exactly the reverse of the startup order.
    pub fn shutdown_order(&self) -> (r: Result<Vec<String>, DagError>)
        requires
            self.wf(),
        ensures
            r is Ok,
            r matches Ok(o) ==> o@ == self.spec_startup_names().reverse(),
    {
        let mut out: Vec<String> = Vec::new();
        let mut k: usize = self.order.len();
        while k > 0
            invariant
                self.wf(),
                k <= self.order@.len(),
                out@.len() == self.order@.len() - k,
                forall|t: int| 0 <= t < out@.len()
                    ==> #[trigger] out@[t]
                        == self.names@[self.order@[self.order@.len() - 1 - t] as int],
            decreases k,
        {
            k = k - 1;
            let idx = self.order[k];
            out.push(self.names[idx].clone());
        }
        proof {
            assert(out@ =~= self.spec_startup_names().reverse());
        }
        Ok(out)
    }

    /// The services to stop when `failed` gives up: every transitive
    /// dependent of `failed`, never `failed` itself.
    pub fn cascade_failure(&self, failed: &str) -> (r: Vec<String>)
        requires
            self.wf(),
        ensures
            forall|x: int| 0 <= x < r@.len()
                ==> self.spec_cascades(failed@, (#[trigger] r@[x])@),
            forall|name: Seq<char>| #[trigger] self.spec_cascades(failed@, name)
                ==> exists|x: int| 0 <= x < r@.len() && (#[trigger] r@[x])@ == name,
            forall|x: int| 0 <= x < r@.len() ==> (#[trigger] r@[x])@ != failed@,
    {
        let idx = match find_name(&self.names, failed) {
            Some(i) => i,
            None => {
                proof {
                    assert forall|name: Seq<char>| !self.spec_cascades(failed@, name) by {
                        if self.spec_cascades(failed@, name) {
                            let (i, j) = choose|i: usize, j: usize|
                                self.cascade_witness(failed@, name, i, j);
                            assert(self.names@[i as int]@ == failed@);
                            assert(spec_name_in(self.names@, failed@));
                        }
                    }
                }
                return Vec::new();
            },
        };
        let marks = self.g.reach_from(idx);
        let mut out: Vec<String> = Vec::new();
        let mut v: usize = 0;
        while v < self.names.len()
            invariant
                self.wf(),
                (idx as int) < self.n(),
                self.names@[idx as int]@ == failed@,
                v <= self.n(),
                marks@.len() == self.n(),
                forall|w: usize| (w as int) < self.n()
                    ==> (marks@[w as int] <==> self.g.reaches(idx, w)),
                forall|x: int| 0 <= x < out@.len()
                    ==> self.cascade_entry(failed@, idx, #[trigger] out@[x]),
                forall|w: usize| (w as int) < v && self.g.reaches(idx, w)
                    ==> exists|x: int|
                        0 <= x < out@.len()
                            && (#[trigger] out@[x])@ == self.names@[w as int]@,
            decreases self.n() - v,
        {
            if marks[v] {
                let ghost out_before = out@;
                out.push(self.names[v].clone());
                proof {
                    assert forall|w: usize| (w as int) < v + 1 && self.g.reaches(idx, w)
                        implies exists|x: int|
                            0 <= x < out@.len()
                                && (#[trigger] out@[x])@ == self.names@[w as int]@ by {
                        if (w as int) < v {
                            let x = choose|x: int|
                                0 <= x < out_before.len()
                                    && (#[trigger] out_before[x])@ == self.names@[w as int]@;
                            assert(out@[x]@ == self.names@[w as int]@);
                        } else {
                            assert(out@[out@.len() - 1]@ == self.names@[w as int]@);
                        }
                    }
                    assert forall|x: int| 0 <= x < out@.len()
                        implies self.cascade_entry(failed@, idx, #[trigger] out@[x]) by {
                        if x < out@.len() - 1 {
                            assert(out@[x] == out_before[x]);
                            assert(self.cascade_entry(failed@, idx, out_before[x]));
                        } else {
                            assert(self.cascade_witness(failed@, out@[x]@, idx, v));
                        }
                    }
                }
            } else {
                proof {
                    assert forall|w: usize| (w as int) < v + 1 && self.g.reaches(idx, w)
                        implies exists|x: int|
                            0 <= x < out@.len()
                                && (#[trigger] out@[x])@ == self.names@[w as int]@ by {
                        if w == v {
                            assert(marks@[v as int]);
                            assert(false);
                        }
                    }
                }
            }
            v = v + 1;
        }
        proof {
            assert forall|x: int| 0 <= x < out@.len()
                implies self.spec_cascades(failed@, (#[trigger] out@[x])@) by {
                assert(self.cascade_entry(failed@, idx, out@[x]));
                let w = choose|w: usize|
                    self.cascade_witness(failed@, out@[x]@, idx, w);
                assert(self.cascade_witness(failed@, out@[x]@, idx, w));
            }
            assert forall|name: Seq<char>| #[trigger] self.spec_cascades(failed@, name)
                implies exists|x: int|
                    0 <= x < out@.len() && (#[trigger] out@[x])@ == name by {
                let (i, j) = choose|i: usize, j: usize|
                    self.cascade_witness(failed@, name, i, j);
                assert(i == idx) by {
                    if i != idx {
                        assert(self.names@[i as int]@ != self.names@[idx as int]@);
                    }
                }
                assert(self.g.reaches(idx, j));
                let x = choose|x: int|
                    0 <= x < out@.len() && (#[trigger] out@[x])@ == self.names@[j as int]@;
            }
            assert forall|x: int| 0 <= x < out@.len()
                implies (#[trigger] out@[x])@ != failed@ by {
                assert(self.cascade_entry(failed@, idx, out@[x]));
                let w = choose|w: usize|
                    self.cascade_witness(failed@, out@[x]@, idx, w);
                if w == idx {
                    // a node reaching itself would be a cycle
                    let p = choose|p: Seq<usize>|
                        self.g.is_path(p) && p.len() >= 2 && p[0] == idx
                            && p[p.len() - 1] == idx;
                    assert(self.g.is_cycle(p));
                    assert(false);
                } else {
                    assert(self.names@[w as int]@ != self.names@[idx as int]@);
                }
            }
        }
        out
    }

    /// Whether `status` meets `cond`: `Started` is met by Running, Healthy
    /// or Degraded; `Healthy` only by Healthy.
    pub open spec fn spec_condition_met(
        status: ServiceStatus,
        cond: DependencyCondition,
    ) -> bool {
        match cond {
            DependencyCondition::Started => status is Running || status is Healthy
                || status is Degraded,
            DependencyCondition::Healthy => status is Healthy,
        }
    }

    /// Executable form of the dependency-condition table.
    pub fn condition_met(status: ServiceStatus, cond: DependencyCondition) -> (r: bool)
        ensures
            r == Self::spec_condition_met(status, cond),
    {
        match cond {
            DependencyCondition::Started => match status {
                ServiceStatus::Running | ServiceStatus::Healthy | ServiceStatus::Degraded => true,
                _ => false,
            },
            DependencyCondition::Healthy => match status {
                ServiceStatus::Healthy => true,
                _ => false,
            },
        }
    }

    /// The (unique) index of a service name.
    pub open spec fn spec_index_of(self, name: Seq<char>) -> int {
        choose|i: int| 0 <= i < self.n() && (#[trigger] self.names@[i])@ == name
    }

    /// Every declared dependency of `name` is met under the given statuses,
    /// indexed as the graph's services are. A name with no entry has no
    /// dependencies to meet.
    pub open spec fn spec_deps_satisfied(self, name: Seq<char>, statuses: Seq<ServiceStatus>) -> bool {
        if !spec_name_in(self.names@, name) {
            true
        } else {
            let j = self.spec_index_of(name);
            forall|k: int| 0 <= k < self.deps@[j]@.len()
                ==> Self::spec_condition_met(
                    statuses[self.spec_index_of((#[trigger] self.deps@[j]@[k]).spec_service())],
                    self.deps@[j]@[k].spec_condition(),
                )
        }
    }

    /// Check if the dependencies of `service` are satisfied, given the
    /// current status of every service by graph index.
    pub fn dependencies_satisfied(&self, service: &str, statuses: &Vec<ServiceStatus>) -> (r:
        bool)
        requires
            self.wf(),
            statuses@.len() == self.n(),
        ensures
            r == self.spec_deps_satisfied(service@, statuses@),
    {
        let j = match find_name(&self.names, service) {
            Some(j) => j,
            None => {
                return true;
            },
        };
        proof {
            assert(self.spec_index_of(service@) == j as int) by {
                let j0 = self.spec_index_of(service@);
                assert(spec_name_in(self.names@, service@)) by {
                    assert(self.names@[j as int]@ == service@);
                }
                if j0 != j as int {
                    assert(self.names@[j0]@ != self.names@[j as int]@);
                }
            }
        }
        let row_len = self.deps[j].len();
        let mut k: usize = 0;
        while k < row_len
            invariant
                self.wf(),
                statuses@.len() == self.n(),
                (j as int) < self.n(),
                self.names@[j as int]@ == service@,
                self.spec_index_of(service@) == j as int,
                row_len == self.deps@[j as int]@.len(),
                k <= row_len,
                forall|t: int| 0 <= t < k
                    ==> Self::spec_condition_met(
                        statuses@[self.spec_index_of(
                            (#[trigger] self.deps@[j as int]@[t]).spec_service(),
                        )],
                        self.deps@[j as int]@[t].spec_condition(),
                    ),
            decreases row_len - k,
        {
            let target = self.deps[j][k].service_name();
            let cond = self.deps[j][k].condition();
            let ti = match find_name(&self.names, target) {
                Some(ti) => ti,
                None => {
                    proof {
                        assert(spec_name_in(
                            self.names@,
                            self.deps@[j as int]@[k as int].spec_service(),
                        ));
                    }
                    return true;
                },
            };
            proof {
                assert(self.spec_index_of(target@) == ti as int) by {
                    let t0 = self.spec_index_of(target@);
                    assert(spec_name_in(self.names@, target@)) by {
                        assert(self.names@[ti as int]@ == target@);
                    }
                    if t0 != ti as int {
                        assert(self.names@[t0]@ != self.names@[ti as int]@);
                    }
                }
            }
            if !Self::condition_met(statuses[ti], cond) {
                return false;
            }
            k = k + 1;
        }
        true
    }

    /// Every service is listed in the startup order only after each of its
    /// declared dependencies.
    pub proof fn lemma_startup_order_respects_dependencies(self, b: int, k: int)
        requires
            self.wf(),
            0 <= b < self.spec_startup_names().len(),
            0 <= k < self.deps@[self.order@[b] as int]@.len(),
        ensures
            exists|a: int|
                0 <= a < b && (#[trigger] self.spec_startup_names()[a])@
                    == self.deps@[self.order@[b] as int]@[k].spec_service(),
    {
        let j = self.order@[b];
        assert((j as int) < self.n());
        let target = self.deps@[j as int]@[k].spec_service();
        assert(spec_name_in(self.names@, target));
        let i = choose|i: int| 0 <= i < self.names@.len() && (#[trigger] self.names@[i])@ == target;
        assert(self.names@.len() <= usize::MAX) by {
            assert(self.names.len() == self.names@.len());
        }
        assert((i as usize) as int == i);
        assert(self.dep_edge_model(i as usize, j)) by {
            assert(self.deps@[j as int]@[k].spec_service() == self.names@[(i as usize) as int]@);
        }
        assert(self.g.edge(i as usize, j));
        assert(self.order@.subrange(0, b).contains(i as usize));
        let a = choose|a: int| 0 <= a < b && self.order@.subrange(0, b)[a] == i as usize;
        assert(self.order@[a] == i as usize);
        assert(self.spec_startup_names()[a] == self.names@[i]);
    }
}

} // verus!
