//! Restart and stop policy attached to each service.

use vstd::prelude::*;

verus! {

/// When a service that exited is started again.
#[derive(Debug, Clone, Copy, PartialEq, Eq, Structural)]
pub enum RestartPolicy {
    Always,
    OnFailure,
    Never,
}

/// Per-service policy: restart rule, restart budget (0 means unlimited),
/// delay between restarts, and how long a graceful stop may take, both in
/// milliseconds.
#[derive(Debug, Clone, Copy, PartialEq, Eq, Structural)]
pub struct PolicyConfig {
    pub restart: RestartPolicy,
    pub max_restarts: u32,
    pub restart_delay_ms: u64,
    pub stop_timeout_ms: u64,
}

impl RestartPolicy {
    /// The policy's display name, as snapshots report it.
    pub open spec fn spec_label(self) -> Seq<char> {
        match self {
            RestartPolicy::Always => "Always"@,
            RestartPolicy::OnFailure => "OnFailure"@,
            RestartPolicy::Never => "Never"@,
        }
    }

    pub fn label(&self) -> (r: &str)
        ensures
            r@ == self.spec_label(),
    {
        match self {
            RestartPolicy::Always => "Always",
            RestartPolicy::OnFailure => "OnFailure",
            RestartPolicy::Never => "Never",
        }
    }
}

impl Default for PolicyConfig {
    /// Restart on failure, unlimited budget, five seconds between restarts,
    /// ten seconds to stop.
    fn default() -> (r: Self)
        ensures
            r.restart is OnFailure,
            r.max_restarts == 0,
            r.restart_delay_ms == 5000,
            r.stop_timeout_ms == 10000,
    {
        PolicyConfig {
            restart: RestartPolicy::OnFailure,
            max_restarts: 0,
            restart_delay_ms: 5000,
            stop_timeout_ms: 10000,
        }
    }
}

} // verus!
