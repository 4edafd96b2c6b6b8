//! Values exchanged between the daemon's supervisor, its command channel
//! and the startup handshake with the foreground client, and the encoder
//! for the one JSON line the daemon writes on its startup pipe.

use crate::ipc::{spec_json_opt_string, spec_json_string, spec_quoted};
use vstd::prelude::*;
use vstd::string::StringExecFns;

verus! {

/// Commands the supervisor accepts over its command channel.
#[derive(Debug, Clone, PartialEq, Eq)]
pub enum DaemonCommand {
    StartService(String),
    StopService(String),
    RestartService(String),
    EmergencyStop,
    GetStatus,
    GetServiceStatus(String),
    GetServiceLogs(String, usize),
    Shutdown,
}

/// Where a startup failure happened, as reported over the startup pipe.
#[derive(Debug, Clone, Copy, PartialEq, Eq, Structural)]
pub enum ErrorCategory {
    Config,
    LogStore,
    Orchestrator,
    IpcServer,
}

/// A startup failure: its category, message, the path involved if any,
/// and a hint for the operator.
#[derive(Debug, Clone, PartialEq, Eq)]
pub struct StartupError {
    pub category: ErrorCategory,
    pub message: String,
    pub path: Option<String>,
    pub hint: String,
}

/// The one line the daemon writes on its startup pipe: success, or a
/// categorized error.
#[derive(Debug, Clone, PartialEq, Eq)]
pub enum StartupMessage {
    Success,
    Error(StartupError),
}

impl ErrorCategory {
    /// The category's wire label.
    pub open spec fn spec_label(self) -> Seq<char> {
        match self {
            ErrorCategory::Config => "Config"@,
            ErrorCategory::LogStore => "LogStore"@,
            ErrorCategory::Orchestrator => "Orchestrator"@,
            ErrorCategory::IpcServer => "IpcServer"@,
        }
    }
}

/// The wire form of the startup-pipe line: a bare `"Success"` string, or
/// a tagged object carrying the failure's category, message, optional
/// path and hint.
pub open spec fn spec_startup_json(m: StartupMessage) -> Seq<char> {
    match m {
        StartupMessage::Success => "\"Success\""@,
        StartupMessage::Error(e) => "{\"Error\":{\"category\":"@
            + spec_quoted(e.category.spec_label()) + ",\"message\":"@
            + spec_json_string(e.message@) + ",\"path\":"@ + spec_json_opt_string(e.path)
            + ",\"hint\":"@ + spec_json_string(e.hint@) + "}}"@,
    }
}

impl StartupMessage {
    /// The startup result as one compact JSON value, exactly as specified.
    pub fn to_json(&self) -> (r: String)
        ensures
            r@ == spec_startup_json(*self),
    {
        let mut out = String::new();
        match self {
            StartupMessage::Success => {
                out.append("\"Success\"");
            },
            StartupMessage::Error(e) => {
                out.append("{\"Error\":{\"category\":");
                out.append("\"");
                match e.category {
                    ErrorCategory::Config => out.append("Config"),
                    ErrorCategory::LogStore => out.append("LogStore"),
                    ErrorCategory::Orchestrator => out.append("Orchestrator"),
                    ErrorCategory::IpcServer => out.append("IpcServer"),
                }
                out.append("\"");
                out.append(",\"message\":");
                crate::ipc::write_json_string(&mut out, e.message.as_str());
                out.append(",\"path\":");
                crate::ipc::write_json_opt_string(&mut out, &e.path);
                out.append(",\"hint\":");
                crate::ipc::write_json_string(&mut out, e.hint.as_str());
                out.append("}}");
                proof {
                    assert(out@ =~= spec_startup_json(*self));
                }
            },
        }
        out
    }
}

/// Severity recorded in the session timeline.
#[derive(Debug, Clone, Copy, PartialEq, Eq, Structural)]
pub enum LogLevel {
    Debug,
    Info,
    Warn,
    Error,
}

/// One record of the session timeline file.
#[derive(Debug, Clone, PartialEq, Eq)]
pub struct TimelineEvent {
    pub timestamp_ms: u64,
    pub service: String,
    pub level: LogLevel,
    pub message: String,
}

} // verus!
