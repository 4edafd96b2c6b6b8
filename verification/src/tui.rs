//! Values shared with the terminal dashboard. The dashboard itself is a
//! pure view over snapshot and log events and lives outside the engine.

use vstd::prelude::*;

verus! {

/// Which screen the dashboard shows.
#[derive(Debug, Clone, PartialEq, Eq)]
pub enum View {
    List,
    Logs(String),
    Detail(String),
}

/// How the dashboard reaches the daemon.
#[derive(Debug, Clone, PartialEq, Eq)]
pub struct TuiConfig {
    pub socket: String,
}

} // verus!
