//! The per-service supervisor state machine. The runner owns the service's
//! lifecycle state, its recorded PID and process group, its restart
//! counter and last exit code; the surrounding daemon performs the actual
//! spawning, signalling and waiting, and reports the outcomes back here.

use crate::config::ServiceConfig;
use crate::ipc::ServiceStatus;
use crate::policy::{PolicyConfig, RestartPolicy};
use crate::process::{arg_views, build_command, spec_build_command, spec_stop_command,
    get_stop_command};
use vstd::prelude::*;
use vstd::string::StringExecFns;

verus! {

/// Why a runner operation failed.
#[derive(Debug)]
pub enum RunnerError {
    SpawnFailed(String),
    ProcessNotRunning,
    StopTimeout,
    HealthCheckFailed(String),
    GpuNotAvailable(String),
    RestartLimitExceeded,
}

/// Lifecycle state of one service.
#[derive(Debug, Clone, Copy, PartialEq, Eq, Structural)]
pub enum ServiceState {
    Pending,
    Starting,
    Running,
    Healthy,
    Degraded,
    Stopping,
    Stopped,
    Failed,
}

/// What the daemon must do to carry out an accepted start: spawn this
/// argv with these extra environment entries, in this directory.
#[derive(Debug, Clone, PartialEq, Eq)]
pub struct StartPlan {
    pub argv: Vec<String>,
    pub working_dir: Option<String>,
    pub extra_env: Vec<(String, String)>,
    pub process_name: String,
}

/// What the daemon must do to carry out a stop: run the declared stop
/// argv if any, signal the group (or the bare PID when no group was
/// recorded), and wait up to the policy's timeout.
#[derive(Debug, Clone, PartialEq, Eq)]
pub struct StopPlan {
    pub stop_argv: Option<Vec<String>>,
    pub pgid: Option<u32>,
    pub pid: Option<u32>,
    pub stop_timeout_ms: u64,
}

/// The per-service state machine.
#[derive(Debug, Clone, PartialEq, Eq)]
pub struct ServiceRunner {
    pub service_name: String,
    pub workspace_name: String,
    pub config: ServiceConfig,
    pub state: ServiceState,
    pub pid: Option<u32>,
    pub pgid: Option<u32>,
    pub restart_count: u32,
    pub last_exit_code: Option<i32>,
    pub last_healthy_ms: Option<u64>,
    pub started_at_ms: Option<u64>,
    pub env_vars: Vec<(String, String)>,
}

impl ServiceRunner {
    /// The PID and PGID records follow the lifecycle state: a PID is held
    /// exactly while the child may be alive, a PGID only with a PID, and
    /// terminal or not-yet-spawned states hold neither.
    pub open spec fn wf(self) -> bool {
        &&& (self.pid is Some ==> (self.state is Running || self.state is Healthy
            || self.state is Degraded || self.state is Stopping))
        &&& ((self.state is Running || self.state is Healthy || self.state is Degraded)
            ==> self.pid is Some)
        &&& (self.pgid is Some ==> self.pid is Some)
    }

    /// A fresh runner: `Pending`, no child, no restarts yet.
    pub fn new(
        service_name: String,
        workspace_name: String,
        config: ServiceConfig,
        env_vars: Vec<(String, String)>,
    ) -> (r: ServiceRunner)
        ensures
            r.wf(),
            r.service_name == service_name,
            r.workspace_name == workspace_name,
            r.config == config,
            r.state is Pending,
            r.pid is None,
            r.pgid is None,
            r.restart_count == 0,
            r.last_exit_code is None,
            r.env_vars == env_vars,
    {
        ServiceRunner {
            service_name,
            workspace_name,
            config,
            state: ServiceState::Pending,
            pid: None,
            pgid: None,
            restart_count: 0,
            last_exit_code: None,
            last_healthy_ms: None,
            started_at_ms: None,
            env_vars,
        }
    }

    pub fn state(&self) -> (r: ServiceState)
        ensures
            r == self.state,
    {
        self.state
    }

    pub fn pid(&self) -> (r: Option<u32>)
        ensures
            r == self.pid,
    {
        self.pid
    }

    pub fn restart_count(&self) -> (r: u32)
        ensures
            r == self.restart_count,
    {
        self.restart_count
    }

    /// A user-triggered restart deliberately consumes one slot of the
    /// restart budget.
    pub fn increment_restart_count(&mut self)
        requires
            old(self).restart_count < u32::MAX,
        ensures
            *final(self) == (ServiceRunner {
                restart_count: (old(self).restart_count + 1) as u32,
                ..*old(self)
            }),
    {
        self.restart_count = self.restart_count + 1;
    }

    /// A start may be accepted only from `Pending`, `Stopped` or `Failed`.
    pub open spec fn spec_can_start(s: ServiceState) -> bool {
        s is Pending || s is Stopped || s is Failed
    }

    /// The restart budget is exhausted: a nonzero cap that the counter has
    /// reached.
    pub open spec fn spec_over_restart_cap(self) -> bool {
        self.config.policy.max_restarts > 0
            && self.restart_count >= self.config.policy.max_restarts
    }

    /// Ask to start the service. In any state other than Pending, Stopped
    /// or Failed this is an idempotent no-op. A GPU service whose probe
    /// failed is refused without a state change; a service over its
    /// restart cap moves to `Failed` and never re-enters `Starting`.
    /// Otherwise the runner moves to `Starting` and hands back the exact
    /// spawn plan: the built argv, the declared working directory, and the
    /// two injected environment entries.
    pub fn begin_start(&mut self, gpu_ok: bool, now_ms: u64) -> (r: Result<
        Option<StartPlan>,
        RunnerError,
    >)
        requires
            old(self).wf(),
        ensures
            final(self).wf(),
            final(self).service_name == old(self).service_name,
            final(self).workspace_name == old(self).workspace_name,
            final(self).config == old(self).config,
            final(self).restart_count == old(self).restart_count,
            !Self::spec_can_start(old(self).state) ==> (*final(self) == *old(self)
                && (r matches Ok(p) && p is None)),
            Self::spec_can_start(old(self).state) && old(self).config.gpu && !gpu_ok ==> (
                *final(self) == *old(self)
                && (r matches Err(e) && e is GpuNotAvailable)),
            Self::spec_can_start(old(self).state) && (old(self).config.gpu ==> gpu_ok)
                && old(self).spec_over_restart_cap() ==> (final(self).state is Failed
                && final(self).pid is None && final(self).pgid is None
                && (r matches Err(e) && e is RestartLimitExceeded)),
            Self::spec_can_start(old(self).state) && (old(self).config.gpu ==> gpu_ok)
                && !old(self).spec_over_restart_cap() ==> (final(self).state is Starting
                && final(self).pid is None && final(self).pgid is None
                && (r matches Ok(p) && p matches Some(plan)
                    && arg_views(plan.argv@) == spec_build_command(
                    old(self).config.execute,
                    old(self).env_vars@,
                )
                    && plan.working_dir == old(self).config.execute.spec_working_dir()
                    && plan.extra_env@.len() == 2
                    && plan.extra_env@[0].0@ == "KRILL_SERVICE_NAME"@
                    && plan.extra_env@[0].1@ == old(self).service_name@
                    && plan.extra_env@[1].0@ == "KRILL_PROCESS_NAME"@
                    && plan.extra_env@[1].1@ == plan.process_name@
                    && (crate::process::spec_valid_service_name(old(self).service_name@)
                        ==> plan.process_name@ == crate::process::spec_process_name(
                        old(self).service_name@,
                        None,
                    )))),
    {
        match self.state {
            ServiceState::Pending | ServiceState::Stopped | ServiceState::Failed => {},
            _ => {
                return Ok(None);
            },
        }
        if self.config.gpu && !gpu_ok {
            return Err(RunnerError::GpuNotAvailable(String::new()));
        }
        if self.config.policy.max_restarts > 0
            && self.restart_count >= self.config.policy.max_restarts {
            self.state = ServiceState::Failed;
            self.pid = None;
            self.pgid = None;
            return Err(RunnerError::RestartLimitExceeded);
        }
        self.state = ServiceState::Starting;
        self.pid = None;
        self.pgid = None;
        self.started_at_ms = Some(now_ms);
        let argv = match build_command(&self.config.execute, &self.env_vars) {
            Ok(argv) => argv,
            Err(_) => {
                // build_command always succeeds; keep the machine safe anyway
                self.state = ServiceState::Failed;
                self.pid = None;
                self.pgid = None;
                return Err(RunnerError::SpawnFailed(String::new()));
            },
        };
        let working_dir = crate::process::get_working_dir(&self.config.execute);
        let process_name = match crate::process::generate_process_name(
            self.service_name.as_str(),
            None,
        ) {
            Ok(p) => p,
            Err(_) => String::new(),
        };
        let mut extra_env: Vec<(String, String)> = Vec::new();
        extra_env.push((String::from_str("KRILL_SERVICE_NAME"), self.service_name.clone()));
        extra_env.push((String::from_str("KRILL_PROCESS_NAME"), process_name.clone()));
        Ok(Some(StartPlan { argv, working_dir, extra_env, process_name }))
    }

    /// The daemon spawned the child: record its PID and group and move to
    /// `Running`.
    pub fn note_spawned(&mut self, pid: u32, pgid: Option<u32>)
        requires
            old(self).wf(),
            old(self).state is Starting,
        ensures
            final(self).wf(),
            *final(self) == (ServiceRunner {
                state: ServiceState::Running,
                pid: Some(pid),
                pgid,
                ..*old(self)
            }),
    {
        self.state = ServiceState::Running;
        self.pid = Some(pid);
        self.pgid = pgid;
    }

    /// The spawn failed: the service is `Failed` with nothing recorded.
    pub fn note_spawn_failed(&mut self)
        requires
            old(self).wf(),
            old(self).state is Starting,
        ensures
            final(self).wf(),
            *final(self) == (ServiceRunner {
                state: ServiceState::Failed,
                pid: None,
                pgid: None,
                ..*old(self)
            }),
    {
        self.state = ServiceState::Failed;
        self.pid = None;
        self.pgid = None;
    }

    /// The state after a health observation: `Running` turns `Healthy` on
    /// a positive signal, `Healthy` degrades on a negative one, `Degraded`
    /// recovers on a positive one; every other pair is a no-op.
    pub open spec fn spec_health_next(s: ServiceState, is_healthy: bool) -> ServiceState {
        if s is Running && is_healthy {
            ServiceState::Healthy
        } else if s is Healthy && !is_healthy {
            ServiceState::Degraded
        } else if s is Degraded && is_healthy {
            ServiceState::Healthy
        } else {
            s
        }
    }

    /// The sixty-second rule: a service already `Healthy`, observed
    /// healthy again at least sixty seconds after the recorded start of
    /// its healthy streak, has its restart burst forgiven.
    pub open spec fn spec_health_reset(self, is_healthy: bool, now_ms: u64) -> bool {
        &&& self.state is Healthy
        &&& is_healthy
        &&& match self.last_healthy_ms {
            Some(t) => now_ms >= t && now_ms - t >= 60000,
            None => false,
        }
    }

    /// Update health per the transition table. A service observed healthy
    /// continuously for at least sixty seconds has its restart counter
    /// reset to zero — exactly then; a degradation breaks the streak.
    pub fn update_health(&mut self, is_healthy: bool, now_ms: u64)
        requires
            old(self).wf(),
        ensures
            final(self).wf(),
            final(self).state == Self::spec_health_next(old(self).state, is_healthy),
            final(self).pid == old(self).pid,
            final(self).pgid == old(self).pgid,
            final(self).config == old(self).config,
            final(self).service_name == old(self).service_name,
            // the counter resets exactly on a sixty-second healthy streak
            final(self).restart_count == if old(self).spec_health_reset(is_healthy, now_ms) {
                0u32
            } else {
                old(self).restart_count
            },
    {
        match self.state {
            ServiceState::Running => {
                if is_healthy {
                    self.state = ServiceState::Healthy;
                    self.last_healthy_ms = Some(now_ms);
                }
            },
            ServiceState::Healthy => {
                if is_healthy {
                    match self.last_healthy_ms {
                        Some(t) => {
                            if now_ms >= t && now_ms - t >= 60000 {
                                self.restart_count = 0;
                            }
                        },
                        None => {
                            self.last_healthy_ms = Some(now_ms);
                        },
                    }
                } else {
                    self.state = ServiceState::Degraded;
                    self.last_healthy_ms = None;
                }
            },
            ServiceState::Degraded => {
                if is_healthy {
                    self.state = ServiceState::Healthy;
                    self.last_healthy_ms = Some(now_ms);
                }
            },
            _ => {},
        }
    }

    /// The monitor observed a self-exit: the service is `Failed`, the
    /// restart counter grows by one, and the exit code is recorded. The
    /// child is gone, so the PID and PGID records are cleared.
    pub fn mark_failed(&mut self, exit_code: Option<i32>)
        requires
            old(self).wf(),
            old(self).restart_count < u32::MAX,
        ensures
            final(self).wf(),
            *final(self) == (ServiceRunner {
                state: ServiceState::Failed,
                pid: None,
                pgid: None,
                restart_count: (old(self).restart_count + 1) as u32,
                last_exit_code: exit_code,
                ..*old(self)
            }),
    {
        self.state = ServiceState::Failed;
        self.pid = None;
        self.pgid = None;
        self.restart_count = self.restart_count + 1;
        self.last_exit_code = exit_code;
    }

    /// The restart-policy table: `Never` never restarts; `Always` restarts
    /// while the budget allows; `OnFailure` restarts on a non-zero or
    /// signalled exit, while the budget allows. A budget of zero is
    /// unlimited.
    pub open spec fn spec_should_restart(
        policy: PolicyConfig,
        restart_count: u32,
        exit_code: Option<i32>,
    ) -> bool {
        match policy.restart {
            RestartPolicy::Never => false,
            RestartPolicy::Always => policy.max_restarts == 0 || restart_count
                < policy.max_restarts,
            RestartPolicy::OnFailure => {
                let is_failure = !(exit_code matches Some(c) && c == 0);
                is_failure && (policy.max_restarts == 0 || restart_count
                    < policy.max_restarts)
            },
        }
    }

    /// Check if the service should be restarted after exiting with
    /// `exit_code`.
    pub fn should_restart(&self, exit_code: Option<i32>) -> (r: bool)
        ensures
            r == Self::spec_should_restart(self.config.policy, self.restart_count, exit_code),
    {
        match self.config.policy.restart {
            RestartPolicy::Never => false,
            RestartPolicy::Always => {
                self.config.policy.max_restarts == 0 || self.restart_count
                    < self.config.policy.max_restarts
            },
            RestartPolicy::OnFailure => {
                let is_failure = match exit_code {
                    Some(c) => c != 0,
                    None => true,
                };
                is_failure && (self.config.policy.max_restarts == 0 || self.restart_count
                    < self.config.policy.max_restarts)
            },
        }
    }

    /// Once the counter has reached a nonzero cap, no exit is ever
    /// restarted.
    pub proof fn lemma_restart_cap(policy: PolicyConfig, count: u32, exit_code: Option<i32>)
        requires
            policy.max_restarts > 0,
            count >= policy.max_restarts,
        ensures
            !Self::spec_should_restart(policy, count, exit_code),
    {
    }

    /// Ask to stop the service. On a `Stopped` or `Pending` runner this is
    /// a no-op success with no state change. Otherwise the runner moves to
    /// `Stopping` and hands back the stop plan: the declared stop argv,
    /// the recorded group and PID, and the policy's stop timeout.
    pub fn begin_stop(&mut self) -> (r: Option<StopPlan>)
        requires
            old(self).wf(),
        ensures
            final(self).wf(),
            final(self).service_name == old(self).service_name,
            final(self).config == old(self).config,
            final(self).restart_count == old(self).restart_count,
            (old(self).state is Stopped || old(self).state is Pending) ==> (*final(self)
                == *old(self) && r is None),
            !(old(self).state is Stopped || old(self).state is Pending) ==> (
                final(self).state is Stopping
                && final(self).pid == old(self).pid
                && final(self).pgid == old(self).pgid
                && (r matches Some(plan)
                    && plan.pgid == old(self).pgid
                    && plan.pid == old(self).pid
                    && plan.stop_timeout_ms == old(self).config.policy.stop_timeout_ms
                    && (plan.stop_argv is Some <==> spec_stop_command(
                        old(self).config.execute,
                    ) is Some)
                    && (plan.stop_argv matches Some(argv) ==> Some(arg_views(argv@))
                        == spec_stop_command(old(self).config.execute)))),
    {
        match self.state {
            ServiceState::Stopped | ServiceState::Pending => {
                return None;
            },
            _ => {},
        }
        let had_pid = self.pid;
        if had_pid.is_none() {
            // no child was ever recorded; stopping it is immediate
            self.state = ServiceState::Stopping;
            self.pid = None;
            self.pgid = None;
        } else {
            self.state = ServiceState::Stopping;
        }
        Some(StopPlan {
            stop_argv: get_stop_command(&self.config.execute),
            pgid: self.pgid,
            pid: self.pid,
            stop_timeout_ms: self.config.policy.stop_timeout_ms,
        })
    }

    /// The stop sequence finished (or was abandoned): the child records
    /// are cleared and the runner is `Stopped`, whatever happened.
    pub fn finish_stop(&mut self)
        requires
            old(self).wf(),
        ensures
            final(self).wf(),
            *final(self) == (ServiceRunner {
                state: ServiceState::Stopped,
                pid: None,
                pgid: None,
                ..*old(self)
            }),
    {
        self.state = ServiceState::Stopped;
        self.pid = None;
        self.pgid = None;
    }

    /// The wire status of each lifecycle state; `Pending` is reported as
    /// `Starting`.
    pub open spec fn spec_status_of(s: ServiceState) -> ServiceStatus {
        match s {
            ServiceState::Pending => ServiceStatus::Starting,
            ServiceState::Starting => ServiceStatus::Starting,
            ServiceState::Running => ServiceStatus::Running,
            ServiceState::Healthy => ServiceStatus::Healthy,
            ServiceState::Degraded => ServiceStatus::Degraded,
            ServiceState::Stopping => ServiceStatus::Stopping,
            ServiceState::Stopped => ServiceStatus::Stopped,
            ServiceState::Failed => ServiceStatus::Failed,
        }
    }

    pub fn get_status(&self) -> (r: ServiceStatus)
        ensures
            r == Self::spec_status_of(self.state),
    {
        match self.state {
            ServiceState::Pending => ServiceStatus::Starting,
            ServiceState::Starting => ServiceStatus::Starting,
            ServiceState::Running => ServiceStatus::Running,
            ServiceState::Healthy => ServiceStatus::Healthy,
            ServiceState::Degraded => ServiceStatus::Degraded,
            ServiceState::Stopping => ServiceStatus::Stopping,
            ServiceState::Stopped => ServiceStatus::Stopped,
            ServiceState::Failed => ServiceStatus::Failed,
        }
    }

    pub fn namespace(&self) -> (r: &String)
        ensures
            r == self.workspace_name,
    {
        &self.workspace_name
    }

    pub fn executor_type(&self) -> (r: &str)
        ensures
            r@ == self.config.execute.spec_executor_type(),
    {
        self.config.execute.executor_type()
    }
}

} // verus!
