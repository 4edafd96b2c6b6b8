//! The command-line surface: one argument record per subcommand. The
//! argument parser itself lives with the binary; these are the values it
//! produces.

use vstd::prelude::*;

verus! {

/// `daemon`: run the daemon directly.
#[derive(Debug, Clone, PartialEq, Eq)]
pub struct DaemonArgs {
    pub config: String,
    pub log_dir: Option<String>,
    pub socket: String,
    pub startup_pipe_fd: Option<i32>,
}

/// `down`: stop all services and the daemon.
#[derive(Debug, Clone, PartialEq, Eq)]
pub struct DownArgs {
    pub socket: String,
}

/// `logs`: view logs of one service or of the daemon.
#[derive(Debug, Clone, PartialEq, Eq)]
pub struct LogsArgs {
    pub service: Option<String>,
    pub follow: bool,
    pub socket: String,
}

/// `ps`: attach the dashboard to a running daemon.
#[derive(Debug, Clone, PartialEq, Eq)]
pub struct PsArgs {
    pub socket: String,
}

/// `up`: start the daemon and optionally attach the dashboard.
#[derive(Debug, Clone, PartialEq, Eq)]
pub struct UpArgs {
    pub config: Option<String>,
    pub detached: bool,
    pub socket: String,
}

} // verus!
