//! krill: a local process orchestrator. A long-lived daemon reads a
//! declarative workspace manifest, resolves the dependency graph between
//! its services, launches each one in its own process group, supervises
//! liveness and health, restarts or cascades failures per policy, and
//! speaks a line-delimited JSON protocol over a Unix-domain socket.
//!
//! This crate is the daemon's verified core: the dependency resolver with
//! its topological orders and cascade sets, the per-service supervisor
//! state machine, the command builder, the manifest validation rules, the
//! shell-command lint, and the wire protocol's codec. Every decision is a
//! pure function with a contract; the binary around the crate only
//! performs the spawning, signalling and socket work those decisions call
//! for, and reports the outcomes back.

pub mod cli;
pub mod client;
pub mod config;
pub mod daemon;
pub mod dag;
pub mod dependency;
pub mod execute;
pub mod graph;
pub mod health;
pub mod ipc;
pub mod orchestrator;
pub mod policy;
pub mod process;
pub mod ringbuf;
pub mod runner;
pub mod safety;
pub mod strutil;
pub mod tui;
pub mod validation;
