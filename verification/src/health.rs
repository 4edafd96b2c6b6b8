//! Health checking data: the checker kinds a service may declare and the
//! heartbeat bookkeeping the daemon performs. Clock readings are passed in
//! as milliseconds so the rules stay pure.

use vstd::prelude::*;
use vstd::string::StringExecFns;

verus! {

/// Why a health operation failed.
#[derive(Debug)]
pub enum HealthError {
    CheckFailed(String),
    Timeout,
    GpuUnavailable(String),
}

impl HealthError {
    /// The human-readable description of the error.
    pub fn message(&self) -> (r: String)
        ensures
            match self {
                HealthError::CheckFailed(s) => r@ == "Health check failed: "@ + s@,
                HealthError::Timeout => r@ == "Timeout exceeded"@,
                HealthError::GpuUnavailable(s) => r@ == "GPU not available: "@ + s@,
            },
    {
        let mut m = String::new();
        match self {
            HealthError::CheckFailed(s) => {
                m.append("Health check failed: ");
                m.append(s.as_str());
            },
            HealthError::Timeout => {
                m.append("Timeout exceeded");
            },
            HealthError::GpuUnavailable(s) => {
                m.append("GPU not available: ");
                m.append(s.as_str());
            },
        }
        m
    }
}

/// The declared health probe of a service. A heartbeat checker records
/// when it last heard from the service; the timeouts are milliseconds.
#[derive(Debug, Clone, PartialEq, Eq)]
pub enum HealthChecker {
    Heartbeat { last_seen: Option<u64>, timeout_ms: u64 },
    Tcp { port: u16, timeout_ms: u64 },
    Http { port: u16, path: String, expected_status: u16 },
    Script { command: String, timeout_ms: u64 },
}

impl HealthChecker {
    /// Update the last seen time for heartbeat checks; any other checker
    /// kind rejects the heartbeat and is left unchanged.
    pub fn record_heartbeat(&mut self, now_ms: u64) -> (r: Result<(), HealthError>)
        ensures
            match *old(self) {
                HealthChecker::Heartbeat { timeout_ms, .. } => r is Ok
                    && *final(self) == (HealthChecker::Heartbeat {
                    last_seen: Some(now_ms),
                    timeout_ms,
                }),
                _ => (r matches Err(e) && e is CheckFailed) && *final(self) == *old(self),
            },
    {
        match self {
            HealthChecker::Heartbeat { last_seen, .. } => {
                *last_seen = Some(now_ms);
                Ok(())
            },
            _ => Err(HealthError::CheckFailed(String::from_str(
                "Not a heartbeat health checker",
            ))),
        }
    }

    /// Whether a heartbeat checker has gone quiet: a recorded heartbeat
    /// lies further in the past than the timeout. A checker that has not
    /// yet heard a heartbeat, or is of another kind, is not timed out.
    /// A clock that moved backwards counts as no time elapsed.
    pub fn is_timed_out(&self, now_ms: u64) -> (r: bool)
        ensures
            r == match *self {
                HealthChecker::Heartbeat { last_seen: Some(t), timeout_ms } => (if now_ms
                    >= t {
                    (now_ms - t) as int
                } else {
                    0
                }) > timeout_ms,
                _ => false,
            },
    {
        match self {
            HealthChecker::Heartbeat { last_seen: Some(t), timeout_ms } => {
                let elapsed: u64 = if now_ms >= *t {
                    now_ms - *t
                } else {
                    0
                };
                elapsed > *timeout_ms
            },
            _ => false,
        }
    }

    /// Get the timeout duration in milliseconds, if this checker has one.
    pub fn timeout(&self) -> (r: Option<u64>)
        ensures
            r == match *self {
                HealthChecker::Heartbeat { timeout_ms, .. } => Some(timeout_ms),
                HealthChecker::Tcp { timeout_ms, .. } => Some(timeout_ms),
                HealthChecker::Script { timeout_ms, .. } => Some(timeout_ms),
                HealthChecker::Http { .. } => None::<u64>,
            },
    {
        match self {
            HealthChecker::Heartbeat { timeout_ms, .. } => Some(*timeout_ms),
            HealthChecker::Tcp { timeout_ms, .. } => Some(*timeout_ms),
            HealthChecker::Script { timeout_ms, .. } => Some(*timeout_ms),
            HealthChecker::Http { .. } => None,
        }
    }
}

/// What a service demands of the machine's GPU before it may start.
#[derive(Debug, Clone, PartialEq, Eq)]
pub struct GpuRequirement {
    pub required: bool,
    pub min_memory_gb: Option<u32>,
    pub compute_capability: Option<String>,
}

} // verus!
