//! The scheduler's decision core. It owns the runners and the dependency
//! graph and decides — purely, from recorded state — what the surrounding
//! daemon must do: whether a service may start, how a self-exit is
//! handled (restart, cascade, or emergency stop), what a snapshot reports,
//! and in what order a graceful shutdown proceeds. The daemon performs the
//! spawning, signalling, sleeping and socket work and reports outcomes
//! back.

use crate::config::KrillConfig;
use crate::dag::{input_all_known, input_distinct, input_edge, input_has_cycle, input_is_cycle,
    input_known, DagError, DependencyGraph};
use crate::dependency::Dependency;
use crate::ipc::{DurationVal, ServiceSnapshot, ServiceStatus};
use crate::runner::{RunnerError, ServiceRunner};
use crate::strutil::find_name;
use vstd::prelude::*;
use vstd::string::StringExecFns;

verus! {

/// Why an orchestrator operation failed.
#[derive(Debug)]
pub enum OrchestratorError {
    DagError(DagError),
    ServiceNotFound(String),
    RunnerError(RunnerError),
    ShuttingDown,
}

/// `v` is exactly the set of names that cascade from the service named
/// `from`: each entry is a transitive dependent, every transitive
/// dependent appears, and `from` itself never does.
pub open spec fn spec_cascade_result(
    dag: DependencyGraph,
    from: Seq<char>,
    v: Seq<String>,
) -> bool {
    &&& forall|x: int| 0 <= x < v.len() ==> dag.spec_cascades(from, (#[trigger] v[x])@)
    &&& forall|nm: Seq<char>| #[trigger] dag.spec_cascades(from, nm)
        ==> exists|x: int| 0 <= x < v.len() && (#[trigger] v[x])@ == nm
    &&& forall|x: int| 0 <= x < v.len() ==> (#[trigger] v[x])@ != from
}

/// A state in which a child's self-exit still needs handling; an exit
/// seen in a user-driven terminal flow is skipped.
pub open spec fn spec_live_exit(s: crate::runner::ServiceState) -> bool {
    !(s is Stopping || s is Stopped || s is Failed)
}

/// What the monitor must do after observing that a service's child
/// process exited.
#[derive(Debug, Clone, PartialEq, Eq)]
pub enum MonitorDecision {
    /// The exit was already handled by a user-driven stop or failure path.
    Ignore,
    /// Respawn the service after the policy's delay.
    Restart { delay_ms: u64 },
    /// Stop these transitive dependents; the failed service stays down.
    CascadeStop(Vec<String>),
    /// A critical service gave up: stop everything at once.
    EmergencyStop,
}

/// The orchestration engine's state: one runner per service, aligned with
/// the dependency graph's indices, and the global shutdown flag.
pub struct Orchestrator {
    pub workspace_name: String,
    pub dag: DependencyGraph,
    pub runners: Vec<ServiceRunner>,
    pub shutdown: bool,
}

impl Orchestrator {
    pub open spec fn n(self) -> int {
        self.dag.n()
    }

    pub open spec fn wf(self) -> bool {
        &&& self.dag.wf()
        &&& self.runners@.len() == self.dag.n()
        &&& forall|i: int| 0 <= i < self.runners@.len()
            ==> (#[trigger] self.runners@[i]).wf()
        &&& forall|i: int| 0 <= i < self.runners@.len()
            ==> (#[trigger] self.runners@[i]).service_name == self.dag.names@[i]
    }

    /// The wire status of every service, by graph index.
    pub open spec fn spec_statuses(self) -> Seq<ServiceStatus> {
        self.runners@.map_values(|r: ServiceRunner| ServiceRunner::spec_status_of(r.state))
    }

    /// Build the engine from a validated workspace: resolve the graph
    /// (rejecting unknown targets and cycles) and create one `Pending`
    /// runner per service, sharing the workspace environment.
    pub fn new(config: KrillConfig) -> (r: Result<Orchestrator, OrchestratorError>)
        requires
            input_distinct(
                config.services@.map_values(
                    |p: (String, crate::config::ServiceConfig)| (p.0, p.1.dependencies),
                ),
            ),
        ensures
            r matches Ok(o) ==> {
                &&& o.wf()
                &&& o.n() == config.services@.len()
                &&& !o.shutdown
                &&& o.workspace_name == config.name
                &&& forall|i: int| 0 <= i < config.services@.len()
                    ==> (#[trigger] o.runners@[i]).state is Pending
                        && o.runners@[i].restart_count == 0
                        && o.runners@[i].config == config.services@[i].1
                        && o.runners@[i].service_name == config.services@[i].0
            },
            r matches Err(e) ==> e is DagError,
            // a workspace whose dependency targets all exist and whose
            // relation is acyclic always yields a built engine
            input_all_known(
                config.services@.map_values(
                    |p: (String, crate::config::ServiceConfig)| (p.0, p.1.dependencies),
                ),
            ) && !input_has_cycle(
                config.services@.map_values(
                    |p: (String, crate::config::ServiceConfig)| (p.0, p.1.dependencies),
                ),
            ) ==> r is Ok,
    {
        let mut dag_input: Vec<(String, Vec<Dependency>)> = Vec::new();
        let mut i: usize = 0;
        while i < config.services.len()
            invariant
                i <= config.services@.len(),
                dag_input@.len() == i,
                forall|t: int| 0 <= t < i
                    ==> #[trigger] dag_input@[t].0 == config.services@[t].0
                        && dag_input@[t].1@ == config.services@[t].1.dependencies@,
            decreases config.services@.len() - i,
        {
            let name = config.services[i].0.clone();
            let mut deps: Vec<Dependency> = Vec::new();
            let mut k: usize = 0;
            let dlen = config.services[i].1.dependencies.len();
            while k < dlen
                invariant
                    i < config.services@.len(),
                    k <= dlen,
                    dlen == config.services@[i as int].1.dependencies@.len(),
                    deps@.len() == k,
                    forall|t: int| 0 <= t < k
                        ==> #[trigger] deps@[t]
                            == config.services@[i as int].1.dependencies@[t],
                decreases dlen - k,
            {
                deps.push(config.services[i].1.dependencies[k].duplicate());
                k = k + 1;
            }
            proof {
                assert(deps@ =~= config.services@[i as int].1.dependencies@);
            }
            dag_input.push((name, deps));
            i = i + 1;
        }
        proof {
            let mapped = config.services@.map_values(
                |p: (String, crate::config::ServiceConfig)| (p.0, p.1.dependencies),
            );
            assert forall|a: int, b: int|
                0 <= a < dag_input@.len() && 0 <= b < dag_input@.len() && a != b
                implies (#[trigger] dag_input@[a].0)@ != (#[trigger] dag_input@[b].0)@ by {
                assert(mapped[a].0 == config.services@[a].0);
                assert(mapped[b].0 == config.services@[b].0);
            }
        }
        let dag = match DependencyGraph::new(&dag_input) {
            Ok(d) => d,
            Err(e) => {
                proof {
                    let mapped = config.services@.map_values(
                        |p: (String, crate::config::ServiceConfig)| (p.0, p.1.dependencies),
                    );
                    // the resolver's input mirrors the mapped services
                    assert forall|t: int| 0 <= t < mapped.len()
                        implies (#[trigger] mapped[t]).0@ == dag_input@[t].0@
                            && mapped[t].1@ == dag_input@[t].1@ by {
                        assert(mapped[t].0 == config.services@[t].0);
                        assert(mapped[t].1 == config.services@[t].1.dependencies);
                    }
                    if input_all_known(mapped) && !input_has_cycle(mapped) {
                        match e {
                            DagError::UnknownService(_) => {
                                assert(input_all_known(dag_input@)) by {
                                    assert forall|j: int, k: int|
                                        0 <= j < dag_input@.len()
                                            && 0 <= k < dag_input@[j].1@.len()
                                        implies input_known(
                                            dag_input@,
                                            (#[trigger] dag_input@[j].1@[k]).spec_service(),
                                        ) by {
                                        assert(dag_input@[j].1@[k] == mapped[j].1@[k]);
                                        assert(input_known(
                                            mapped,
                                            mapped[j].1@[k].spec_service(),
                                        ));
                                        let i0 = choose|i0: int|
                                            0 <= i0 < mapped.len()
                                                && (#[trigger] mapped[i0].0)@
                                                    == mapped[j].1@[k].spec_service();
                                        assert(dag_input@[i0].0@
                                            == mapped[j].1@[k].spec_service());
                                    }
                                }
                                assert(false);
                            },
                            DagError::CircularDependency(_) => {
                                let p = choose|p: Seq<usize>| input_is_cycle(dag_input@, p);
                                assert(input_is_cycle(mapped, p)) by {
                                    assert forall|t: int| 0 <= t < p.len() - 1
                                        implies input_edge(mapped, #[trigger] p[t], p[t + 1]) by {
                                        assert(input_edge(dag_input@, p[t], p[t + 1]));
                                        let a = p[t];
                                        let b = p[t + 1];
                                        let k = choose|k: int|
                                            0 <= k < dag_input@[b as int].1@.len()
                                                && (#[trigger] dag_input@[b as int].1@[k])
                                                    .spec_service()
                                                    == dag_input@[a as int].0@;
                                        assert(mapped[b as int].1@[k]
                                            == dag_input@[b as int].1@[k]);
                                        assert(mapped[b as int].1@[k].spec_service()
                                            == mapped[a as int].0@);
                                    }
                                }
                                assert(false);
                            },
                            _ => {
                                assert(false);
                            },
                        }
                    }
                }
                return Err(OrchestratorError::DagError(e));
            },
        };
        let mut runners: Vec<ServiceRunner> = Vec::new();
        let ghost all_services = config.services@;
        let mut services = config.services;
        while services.len() > 0
            invariant
                runners@.len() + services@.len() == all_services.len(),
                forall|t: int| 0 <= t < services@.len()
                    ==> #[trigger] services@[t] == all_services[runners@.len() + t],
                dag.wf(),
                dag.n() == all_services.len(),
                forall|t: int| 0 <= t < all_services.len()
                    ==> #[trigger] dag.names@[t] == dag_input@[t].0,
                forall|t: int| 0 <= t < all_services.len()
                    ==> #[trigger] dag_input@[t].0 == all_services[t].0,
                forall|t: int| 0 <= t < runners@.len()
                    ==> (#[trigger] runners@[t]).wf()
                        && runners@[t].state is Pending
                        && runners@[t].restart_count == 0
                        && runners@[t].config == all_services[t].1
                        && runners@[t].service_name == all_services[t].0,
            decreases services@.len(),
        {
            let mut env_copy: Vec<(String, String)> = Vec::new();
            let mut e: usize = 0;
            while e < config.env.len()
                invariant
                    e <= config.env@.len(),
                    env_copy@.len() == e,
                decreases config.env@.len() - e,
            {
                env_copy.push((config.env[e].0.clone(), config.env[e].1.clone()));
                e = e + 1;
            }
            let (name, svc) = services.remove(0);
            let runner = ServiceRunner::new(name, config.name.clone(), svc, env_copy);
            runners.push(runner);
        }
        Ok(Orchestrator { workspace_name: config.name, dag, runners, shutdown: false })
    }

    /// The current wire status of every service, by graph index.
    pub fn statuses(&self) -> (r: Vec<ServiceStatus>)
        ensures
            r@ == self.spec_statuses(),
    {
        let mut out: Vec<ServiceStatus> = Vec::new();
        let mut i: usize = 0;
        while i < self.runners.len()
            invariant
                i <= self.runners@.len(),
                out@.len() == i,
                forall|t: int| 0 <= t < i
                    ==> #[trigger] out@[t]
                        == ServiceRunner::spec_status_of(self.runners@[t].state),
            decreases self.runners@.len() - i,
        {
            out.push(self.runners[i].get_status());
            i = i + 1;
        }
        proof {
            assert(out@ =~= self.spec_statuses());
        }
        out
    }

    /// The index of a service name in the engine.
    pub fn runner_index(&self, name: &str) -> (r: Option<usize>)
        requires
            self.wf(),
        ensures
            match r {
                Some(i) => (i as int) < self.n() && self.dag.names@[i as int]@ == name@,
                None => !crate::strutil::spec_name_in(self.dag.names@, name@),
            },
    {
        find_name(&self.dag.names, name)
    }

    /// Whether every declared dependency of `service` is met right now:
    /// the dependency-gating decision polled before a spawn.
    pub fn dependencies_ready(&self, service: &str) -> (r: bool)
        requires
            self.wf(),
        ensures
            r == self.dag.spec_deps_satisfied(service@, self.spec_statuses()),
    {
        let statuses = self.statuses();
        self.dag.dependencies_satisfied(service, &statuses)
    }

    /// Ingest a heartbeat: a `Healthy` or `Running` report is a positive
    /// health signal, anything else negative. Returns the status to
    /// broadcast. An unknown service is rejected and nothing changes.
    pub fn process_heartbeat(
        &mut self,
        service: &str,
        status: ServiceStatus,
        now_ms: u64,
    ) -> (r: Result<ServiceStatus, OrchestratorError>)
        requires
            old(self).wf(),
        ensures
            final(self).wf(),
            final(self).dag == old(self).dag,
            final(self).shutdown == old(self).shutdown,
            !crate::strutil::spec_name_in(old(self).dag.names@, service@) ==> (
                *final(self) == *old(self)
                && (r matches Err(e) && e is ServiceNotFound)),
            crate::strutil::spec_name_in(old(self).dag.names@, service@) ==> (
                r matches Ok(s2) && exists|i: int|
                    {
                        &&& 0 <= i < old(self).runners@.len()
                        &&& (#[trigger] old(self).dag.names@[i])@ == service@
                        &&& final(self).runners@[i].state
                            == ServiceRunner::spec_health_next(
                            old(self).runners@[i].state,
                            status is Healthy || status is Running,
                        )
                        &&& s2 == ServiceRunner::spec_status_of(final(self).runners@[i].state)
                        &&& forall|t: int|
                            0 <= t < old(self).runners@.len() && t != i
                                ==> final(self).runners@[t] == old(self).runners@[t]
                    }),
    {
        let idx = match find_name(&self.dag.names, service) {
            Some(i) => i,
            None => {
                return Err(OrchestratorError::ServiceNotFound(service.to_owned()));
            },
        };
        let is_healthy = match status {
            ServiceStatus::Healthy | ServiceStatus::Running => true,
            _ => false,
        };
        let mut runner = self.runners.remove(idx);
        runner.update_health(is_healthy, now_ms);
        let new_status = runner.get_status();
        self.runners.insert(idx, runner);
        proof {
            assert(self.runners@ =~= old(self).runners@.update(
                idx as int,
                self.runners@[idx as int],
            ));
        }
        Ok(new_status)
    }

    /// Decide what to do after service `idx`'s child exited on its own
    /// with `exit_code`. An exit in a user-driven terminal flow is
    /// ignored. Otherwise the runner is marked failed (raising its restart
    /// counter) and the policy decides: restart after the configured
    /// delay; on a spent budget, an emergency stop for a critical service
    /// (raising the shutdown flag) or a cascade stop of the transitive
    /// dependents for an ordinary one.
    #[verifier::rlimit(100)]
    pub fn on_service_exit(&mut self, idx: usize, exit_code: Option<i32>) -> (r:
        MonitorDecision)
        requires
            old(self).wf(),
            (idx as int) < old(self).n(),
            old(self).runners@[idx as int].restart_count < u32::MAX,
        ensures
            final(self).wf(),
            final(self).dag == old(self).dag,
            forall|t: int| 0 <= t < old(self).runners@.len() && t != idx
                ==> final(self).runners@[t] == old(self).runners@[t],
            // already-handled states change nothing
            (old(self).runners@[idx as int].state is Stopping
                || old(self).runners@[idx as int].state is Stopped
                || old(self).runners@[idx as int].state is Failed) ==> (r is Ignore
                && *final(self) == *old(self)),
            // otherwise the runner is failed with the counter raised
            spec_live_exit(old(self).runners@[idx as int].state) ==> (
                final(self).runners@[idx as int].state is Failed
                && final(self).runners@[idx as int].restart_count
                    == old(self).runners@[idx as int].restart_count + 1
                && final(self).runners@[idx as int].last_exit_code == exit_code),
            spec_live_exit(old(self).runners@[idx as int].state) ==> (r is Restart
                <==> ServiceRunner::spec_should_restart(
                old(self).runners@[idx as int].config.policy,
                old(self).runners@[idx as int].restart_count,
                exit_code,
            )),
            r matches MonitorDecision::Restart { delay_ms } ==> delay_ms
                == old(self).runners@[idx as int].config.policy.restart_delay_ms,
            spec_live_exit(old(self).runners@[idx as int].state) ==> (r is EmergencyStop
                <==> (!ServiceRunner::spec_should_restart(
                old(self).runners@[idx as int].config.policy,
                old(self).runners@[idx as int].restart_count,
                exit_code,
            ) && old(self).runners@[idx as int].config.critical)),
            spec_live_exit(old(self).runners@[idx as int].state) ==> (r is CascadeStop
                <==> (!ServiceRunner::spec_should_restart(
                old(self).runners@[idx as int].config.policy,
                old(self).runners@[idx as int].restart_count,
                exit_code,
            ) && !old(self).runners@[idx as int].config.critical)),
            r is EmergencyStop ==> final(self).shutdown,
            !(r is EmergencyStop) ==> final(self).shutdown == old(self).shutdown,
            r matches MonitorDecision::CascadeStop(v) ==> spec_cascade_result(
                final(self).dag,
                final(self).dag.names@[idx as int]@,
                v@,
            ),
            // a spent nonzero budget is never restarted again
            old(self).runners@[idx as int].spec_over_restart_cap() ==> !(r is Restart),
    {
        let state = self.runners[idx].state();
        match state {
            crate::runner::ServiceState::Stopping
            | crate::runner::ServiceState::Stopped
            | crate::runner::ServiceState::Failed => {
                return MonitorDecision::Ignore;
            },
            _ => {},
        }
        let should_restart = self.runners[idx].should_restart(exit_code);
        let critical = self.runners[idx].config.critical;
        let delay_ms = self.runners[idx].config.policy.restart_delay_ms;
        let mut runner = self.runners.remove(idx);
        runner.mark_failed(exit_code);
        self.runners.insert(idx, runner);
        proof {
            assert(self.runners@ =~= old(self).runners@.update(
                idx as int,
                self.runners@[idx as int],
            ));
            if old(self).runners@[idx as int].spec_over_restart_cap() {
                ServiceRunner::lemma_restart_cap(
                    old(self).runners@[idx as int].config.policy,
                    old(self).runners@[idx as int].restart_count,
                    exit_code,
                );
            }
        }
        if should_restart {
            MonitorDecision::Restart { delay_ms }
        } else if critical {
            self.shutdown = true;
            MonitorDecision::EmergencyStop
        } else {
            let name = self.dag.names[idx].clone();
            let affected = self.dag.cascade_failure(name.as_str());
            proof {
                assert(name@ == self.dag.names@[idx as int]@);
                assert(spec_cascade_result(
                    self.dag,
                    self.dag.names@[idx as int]@,
                    affected@,
                )) by {
                    assert forall|x: int| 0 <= x < affected@.len()
                        implies self.dag.spec_cascades(
                            self.dag.names@[idx as int]@,
                            (#[trigger] affected@[x])@,
                        ) && (#[trigger] affected@[x])@ != self.dag.names@[idx as int]@ by {
                        assert(self.dag.spec_cascades(name@, affected@[x]@));
                        assert(affected@[x]@ != name@);
                    }
                    assert forall|nm: Seq<char>|
                        #[trigger] self.dag.spec_cascades(self.dag.names@[idx as int]@, nm)
                        implies exists|x: int|
                            0 <= x < affected@.len() && (#[trigger] affected@[x])@ == nm by {
                        assert(self.dag.spec_cascades(name@, nm));
                    }
                }
            }
            MonitorDecision::CascadeStop(affected)
        }
    }

    /// Raise the shutdown flag and hand back the order in which services
    /// are stopped: the exact reverse of the startup order, so a service
    /// is stopped only after everything depending on it.
    pub fn begin_shutdown(&mut self) -> (r: Vec<String>)
        requires
            old(self).wf(),
        ensures
            final(self).wf(),
            final(self).dag == old(self).dag,
            final(self).runners == old(self).runners,
            final(self).shutdown,
            r@ == old(self).dag.spec_startup_names().reverse(),
    {
        self.shutdown = true;
        match self.dag.shutdown_order() {
            Ok(order) => order,
            Err(_) => Vec::new(),
        }
    }

    pub fn is_shutting_down(&self) -> (r: bool)
        ensures
            r == self.shutdown,
    {
        self.shutdown
    }

    /// What a live snapshot reports as uptime: elapsed whole seconds
    /// since the recorded start for a live service, nothing otherwise; a
    /// clock that moved backwards reads as zero.
    pub open spec fn spec_uptime(r: ServiceRunner, now_ms: u64) -> Option<DurationVal> {
        if (r.state is Running || r.state is Healthy || r.state is Degraded)
            && r.started_at_ms is Some {
            let t = r.started_at_ms->0;
            if now_ms >= t {
                Some(DurationVal { secs: ((now_ms - t) / 1000) as u64, nanos: 0 })
            } else {
                Some(DurationVal { secs: 0, nanos: 0 })
            }
        } else {
            None
        }
    }

    /// A consistent snapshot of every service, as sent to clients: the
    /// live state of each runner and the descriptive facts of its
    /// declaration.
    pub fn get_snapshot(&self, now_ms: u64) -> (r: Vec<(String, ServiceSnapshot)>)
        requires
            self.wf(),
        ensures
            r@.len() == self.n(),
            forall|i: int| 0 <= i < r@.len() ==> {
                &&& (#[trigger] r@[i]).0 == self.dag.names@[i]
                &&& r@[i].1.status
                    == ServiceRunner::spec_status_of(self.runners@[i].state)
                &&& r@[i].1.pid == self.runners@[i].pid
                &&& r@[i].1.uptime == Self::spec_uptime(self.runners@[i], now_ms)
                &&& r@[i].1.restart_count == self.runners@[i].restart_count
                &&& r@[i].1.last_error is None
                &&& r@[i].1.namespace@ == self.runners@[i].workspace_name@
                &&& r@[i].1.executor_type@
                    == self.runners@[i].config.execute.spec_executor_type()
                &&& r@[i].1.dependencies@.len()
                    == self.runners@[i].config.dependencies@.len()
                &&& (forall|k: int|
                    0 <= k < r@[i].1.dependencies@.len()
                        ==> (#[trigger] r@[i].1.dependencies@[k])@
                            == self.runners@[i].config.dependencies@[k].spec_service())
                &&& r@[i].1.uses_gpu == self.runners@[i].config.gpu
                &&& r@[i].1.critical == self.runners@[i].config.critical
                &&& r@[i].1.restart_policy@
                    == self.runners@[i].config.policy.restart.spec_label()
                &&& r@[i].1.max_restarts == self.runners@[i].config.policy.max_restarts
            },
    {
        let mut out: Vec<(String, ServiceSnapshot)> = Vec::new();
        let mut i: usize = 0;
        while i < self.runners.len()
            invariant
                self.wf(),
                i <= self.runners@.len(),
                out@.len() == i,
                forall|t: int| 0 <= t < i ==> {
                    &&& (#[trigger] out@[t]).0 == self.dag.names@[t]
                    &&& out@[t].1.status
                        == ServiceRunner::spec_status_of(self.runners@[t].state)
                    &&& out@[t].1.pid == self.runners@[t].pid
                    &&& out@[t].1.uptime == Self::spec_uptime(self.runners@[t], now_ms)
                    &&& out@[t].1.restart_count == self.runners@[t].restart_count
                    &&& out@[t].1.last_error is None
                    &&& out@[t].1.namespace@ == self.runners@[t].workspace_name@
                    &&& out@[t].1.executor_type@
                        == self.runners@[t].config.execute.spec_executor_type()
                    &&& out@[t].1.dependencies@.len()
                        == self.runners@[t].config.dependencies@.len()
                    &&& (forall|k: int|
                        0 <= k < out@[t].1.dependencies@.len()
                            ==> (#[trigger] out@[t].1.dependencies@[k])@
                                == self.runners@[t].config.dependencies@[k].spec_service())
                    &&& out@[t].1.uses_gpu == self.runners@[t].config.gpu
                    &&& out@[t].1.critical == self.runners@[t].config.critical
                    &&& out@[t].1.restart_policy@
                        == self.runners@[t].config.policy.restart.spec_label()
                    &&& out@[t].1.max_restarts == self.runners@[t].config.policy.max_restarts
                },
            decreases self.runners@.len() - i,
        {
            let runner = &self.runners[i];
            let uptime = match (runner.state(), runner.started_at_ms) {
                (crate::runner::ServiceState::Running, Some(t))
                | (crate::runner::ServiceState::Healthy, Some(t))
                | (crate::runner::ServiceState::Degraded, Some(t)) => {
                    if now_ms >= t {
                        Some(DurationVal { secs: (now_ms - t) / 1000, nanos: 0 })
                    } else {
                        Some(DurationVal { secs: 0, nanos: 0 })
                    }
                },
                _ => None,
            };
            let mut dep_names: Vec<String> = Vec::new();
            let mut k: usize = 0;
            let dlen = runner.config.dependencies.len();
            while k < dlen
                invariant
                    i < self.runners@.len(),
                    runner == &self.runners@[i as int],
                    k <= dlen,
                    dlen == runner.config.dependencies@.len(),
                    dep_names@.len() == k,
                    forall|t: int| 0 <= t < k
                        ==> (#[trigger] dep_names@[t])@
                            == runner.config.dependencies@[t].spec_service(),
                decreases dlen - k,
            {
                dep_names.push(runner.config.dependencies[k].service_name().to_owned());
                k = k + 1;
            }
            let snap = ServiceSnapshot {
                status: runner.get_status(),
                pid: runner.pid(),
                uptime,
                restart_count: runner.restart_count(),
                last_error: None,
                namespace: runner.workspace_name.clone(),
                executor_type: runner.executor_type().to_owned(),
                dependencies: dep_names,
                uses_gpu: runner.config.gpu,
                critical: runner.config.critical,
                restart_policy: runner.config.policy.restart.label().to_owned(),
                max_restarts: runner.config.policy.max_restarts,
            };
            out.push((self.dag.names[i].clone(), snap));
            i = i + 1;
        }
        out
    }
}

} // verus!
