//! How a service is executed: the four executor kinds and their fields.
//! Paths are carried as plain strings; POSIX rules are assumed, so a path
//! is absolute exactly when it starts with a slash.

use crate::strutil::push_char;
use vstd::prelude::*;
use vstd::string::StrSliceExecFns;
use vstd::string::StringExecFns;

verus! {

/// One host-to-container bind mount.
#[derive(Debug, Clone, PartialEq, Eq)]
pub enum VolumeMount {
    Detailed { host: String, container: String, read_only: bool },
}

impl VolumeMount {
    pub open spec fn spec_host(self) -> Seq<char> {
        match self {
            VolumeMount::Detailed { host, .. } => host@,
        }
    }

    pub open spec fn spec_container(self) -> Seq<char> {
        match self {
            VolumeMount::Detailed { container, .. } => container@,
        }
    }

    pub open spec fn spec_read_only(self) -> bool {
        match self {
            VolumeMount::Detailed { read_only, .. } => read_only,
        }
    }

    pub fn host(&self) -> (r: &String)
        ensures
            r@ == self.spec_host(),
    {
        match self {
            VolumeMount::Detailed { host, .. } => host,
        }
    }

    pub fn container(&self) -> (r: &String)
        ensures
            r@ == self.spec_container(),
    {
        match self {
            VolumeMount::Detailed { container, .. } => container,
        }
    }

    pub fn read_only(&self) -> (r: bool)
        ensures
            r == self.spec_read_only(),
    {
        match self {
            VolumeMount::Detailed { read_only, .. } => *read_only,
        }
    }
}

/// One host-to-container port mapping.
#[derive(Debug, Clone, PartialEq, Eq)]
pub struct PortMapping {
    pub host: u16,
    pub container: u16,
    pub protocol: String,
}

/// The executor of a service and its launch data.
#[derive(Debug, Clone, PartialEq, Eq)]
pub enum ExecuteConfig {
    Pixi {
        task: String,
        environment: Option<String>,
        stop_task: Option<String>,
        working_dir: Option<String>,
    },
    Ros2 {
        package: String,
        launch_file: String,
        launch_args: Vec<(String, String)>,
        stop_task: Option<String>,
        working_dir: Option<String>,
    },
    Shell {
        command: String,
        stop_command: Option<String>,
        working_dir: Option<String>,
    },
    Docker {
        image: String,
        volumes: Vec<VolumeMount>,
        ports: Vec<PortMapping>,
        privileged: bool,
        network: Option<String>,
    },
}

/// A path is absolute when it begins with a slash.
pub open spec fn spec_is_absolute(p: Seq<char>) -> bool {
    p.len() > 0 && p[0] == '/'
}

/// A relative path resolved against a base directory.
pub open spec fn spec_resolve_path(base: Seq<char>, p: Seq<char>) -> Seq<char> {
    if spec_is_absolute(p) {
        p
    } else {
        base + seq!['/'] + p
    }
}

/// Resolve `p` against `base` unless `p` is already absolute.
pub fn resolve_path(base: &str, p: &String) -> (r: String)
    ensures
        r@ == spec_resolve_path(base@, p@),
{
    let abs = if p.as_str().unicode_len() > 0 {
        p.as_str().get_char(0) == '/'
    } else {
        false
    };
    if abs {
        p.clone()
    } else {
        let mut out = String::new();
        out.append(base);
        push_char(&mut out, '/');
        out.append(p.as_str());
        proof {
            assert(out@ =~= spec_resolve_path(base@, p@));
        }
        out
    }
}

impl ExecuteConfig {
    /// The executor's wire label.
    pub open spec fn spec_executor_type(self) -> Seq<char> {
        match self {
            ExecuteConfig::Pixi { .. } => "pixi"@,
            ExecuteConfig::Ros2 { .. } => "ros2"@,
            ExecuteConfig::Shell { .. } => "shell"@,
            ExecuteConfig::Docker { .. } => "docker"@,
        }
    }

    pub fn executor_type(&self) -> (r: &str)
        ensures
            r@ == self.spec_executor_type(),
    {
        match self {
            ExecuteConfig::Pixi { .. } => "pixi",
            ExecuteConfig::Ros2 { .. } => "ros2",
            ExecuteConfig::Shell { .. } => "shell",
            ExecuteConfig::Docker { .. } => "docker",
        }
    }

    /// The declared working directory, if the executor has one.
    pub open spec fn spec_working_dir(self) -> Option<String> {
        match self {
            ExecuteConfig::Pixi { working_dir, .. } => working_dir,
            ExecuteConfig::Ros2 { working_dir, .. } => working_dir,
            ExecuteConfig::Shell { working_dir, .. } => working_dir,
            ExecuteConfig::Docker { .. } => None,
        }
    }

    /// Resolve a relative `working_dir` against a base directory; absolute
    /// paths and container executors are left alone.
    pub fn resolve_working_dir(&mut self, base_dir: &str)
        ensures
            spec_exec_resolved(base_dir@, *old(self), *final(self)),
    {
        match self {
            ExecuteConfig::Pixi { working_dir, .. } => {
                resolve_dir_field(working_dir, base_dir);
            },
            ExecuteConfig::Ros2 { working_dir, .. } => {
                resolve_dir_field(working_dir, base_dir);
            },
            ExecuteConfig::Shell { working_dir, .. } => {
                resolve_dir_field(working_dir, base_dir);
            },
            ExecuteConfig::Docker { .. } => {},
        }
    }
}

/// `after` is `before` with its working directory resolved against `base`
/// and every other field unchanged.
pub open spec fn spec_exec_resolved(
    base: Seq<char>,
    before: ExecuteConfig,
    after: ExecuteConfig,
) -> bool {
    match before {
        ExecuteConfig::Pixi { task, environment, stop_task, working_dir } => {
            &&& (after matches ExecuteConfig::Pixi {
                task: t2,
                environment: e2,
                stop_task: s2,
                working_dir: w2,
            } && t2 == task && e2 == environment && s2 == stop_task
                && dir_resolved(base, working_dir, w2))
        },
        ExecuteConfig::Ros2 {
            package,
            launch_file,
            launch_args,
            stop_task,
            working_dir,
        } => {
            &&& (after matches ExecuteConfig::Ros2 {
                package: p2,
                launch_file: l2,
                launch_args: a2,
                stop_task: s2,
                working_dir: w2,
            } && p2 == package && l2 == launch_file && a2 == launch_args
                && s2 == stop_task && dir_resolved(base, working_dir, w2))
        },
        ExecuteConfig::Shell { command, stop_command, working_dir } => {
            &&& (after matches ExecuteConfig::Shell {
                command: c2,
                stop_command: s2,
                working_dir: w2,
            } && c2 == command && s2 == stop_command
                && dir_resolved(base, working_dir, w2))
        },
        ExecuteConfig::Docker { .. } => after == before,
    }
}

/// How a `working_dir` field reads after resolution against `base`.
pub open spec fn dir_resolved(base: Seq<char>, before: Option<String>, after: Option<String>) -> bool {
    match before {
        None => after is None,
        Some(p) => after matches Some(q) && q@ == spec_resolve_path(base, p@),
    }
}

/// Replace a relative directory with its resolution against `base`.
fn resolve_dir_field(wd: &mut Option<String>, base: &str)
    ensures
        match *old(wd) {
            None => *final(wd) is None,
            Some(p) => *final(wd) matches Some(q) && q@ == spec_resolve_path(base@, p@),
        },
{
    let resolved = match wd {
        None => None,
        Some(p) => Some(resolve_path(base, p)),
    };
    *wd = resolved;
}

} // verus!
