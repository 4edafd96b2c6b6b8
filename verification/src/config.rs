//! The workspace manifest as an in-memory value, and its validation rules:
//! a supported version, a usable workspace name, at least one service,
//! safe shell commands, known dependency targets, and no container
//! executor.

use crate::dependency::Dependency;
use crate::execute::{spec_exec_resolved, ExecuteConfig};
use crate::health::HealthChecker;
use crate::policy::PolicyConfig;
use crate::process::{spec_name_char, spec_valid_service_name};
use crate::strutil::{find_name, spec_name_in, str_eq};
use crate::validation::{spec_command_ok, validate_shell_command};
use vstd::prelude::*;
use vstd::string::StringExecFns;

verus! {

/// Why a manifest was rejected.
#[derive(Debug)]
pub enum ConfigError {
    FileRead(String, String),
    Parse(String),
    UnsupportedVersion(String),
    InvalidWorkspaceName(String),
    InvalidServiceName(String),
    NoServices,
    UnknownDependency { service: String, dependency: String },
    DockerRequiresPro,
    UnsafeShellCommand(String),
}

impl ConfigError {
    /// The human-readable description of the error.
    pub fn message(&self) -> (r: String)
        ensures
            match self {
                ConfigError::UnsupportedVersion(v) =>
                    r@ == "Unsupported config version: "@ + v@ + " (expected '1')"@,
                ConfigError::UnknownDependency { service, dependency } =>
                    r@ == "Service '"@ + service@ + "' depends on unknown service '"@
                        + dependency@ + "'"@,
                _ => true,
            },
    {
        let mut m = String::new();
        match self {
            ConfigError::FileRead(p, e) => {
                m.append("Failed to read config file ");
                m.append(p.as_str());
                m.append(": ");
                m.append(e.as_str());
            },
            ConfigError::Parse(e) => {
                m.append("Failed to parse config: ");
                m.append(e.as_str());
            },
            ConfigError::UnsupportedVersion(v) => {
                m.append("Unsupported config version: ");
                m.append(v.as_str());
                m.append(" (expected '1')");
            },
            ConfigError::InvalidWorkspaceName(s) => {
                m.append("Invalid workspace name: ");
                m.append(s.as_str());
            },
            ConfigError::InvalidServiceName(s) => {
                m.append("Invalid service name: ");
                m.append(s.as_str());
            },
            ConfigError::NoServices => {
                m.append("No services defined in configuration");
            },
            ConfigError::UnknownDependency { service, dependency } => {
                m.append("Service '");
                m.append(service.as_str());
                m.append("' depends on unknown service '");
                m.append(dependency.as_str());
                m.append("'");
            },
            ConfigError::DockerRequiresPro => {
                m.append("Docker execution type requires Krill Pro (coming soon)");
            },
            ConfigError::UnsafeShellCommand(s) => {
                m.append("Unsafe shell command: ");
                m.append(s.as_str());
            },
        }
        m
    }
}

/// One service as declared by the manifest.
#[derive(Debug, Clone, PartialEq, Eq)]
pub struct ServiceConfig {
    pub execute: ExecuteConfig,
    pub dependencies: Vec<Dependency>,
    pub critical: bool,
    pub gpu: bool,
    pub health_check: Option<HealthChecker>,
    pub policy: PolicyConfig,
}

/// The whole workspace: version, name, shared environment, log-directory
/// hint and the declared services in manifest order.
#[derive(Debug, Clone, PartialEq, Eq)]
pub struct KrillConfig {
    pub version: String,
    pub name: String,
    pub log_dir: Option<String>,
    pub env: Vec<(String, String)>,
    pub services: Vec<(String, ServiceConfig)>,
}

/// The shell commands of an executor pass the safety lint; non-shell
/// executors have nothing to lint here.
pub open spec fn spec_shell_ok(e: ExecuteConfig) -> bool {
    match e {
        ExecuteConfig::Shell { command, stop_command, .. } => {
            &&& spec_command_ok(command@)
            &&& match stop_command {
                Some(sc) => spec_command_ok(sc@),
                None => true,
            }
        },
        _ => true,
    }
}

/// A service passes validation under its name.
pub open spec fn spec_service_ok(name: Seq<char>, c: ServiceConfig) -> bool {
    spec_valid_service_name(name) && spec_shell_ok(c.execute)
}

impl ServiceConfig {
    /// Validate one service: its name must be usable and its shell
    /// commands safe.
    pub fn validate(&self, service_name: &str) -> (r: Result<(), ConfigError>)
        ensures
            r is Ok <==> spec_service_ok(service_name@, *self),
            r matches Err(e) ==> (e is InvalidServiceName || e is UnsafeShellCommand),
    {
        let chars = crate::strutil::to_chars(service_name);
        let mut i: usize = 0;
        while i < chars.len()
            invariant
                chars@ == service_name@,
                i <= chars@.len(),
                forall|k: int| 0 <= k < i ==> spec_name_char(#[trigger] chars@[k]),
            decreases chars@.len() - i,
        {
            let c = chars[i];
            if !(crate::process::char_is_alphanumeric(c) || c == '-' || c == '_') {
                let mut m = String::new();
                m.append("Service name '");
                m.append(service_name);
                m.append("' contains invalid characters");
                return Err(ConfigError::InvalidServiceName(m));
            }
            i = i + 1;
        }
        if chars.len() == 0 {
            return Err(ConfigError::InvalidServiceName(String::from_str(
                "Service name cannot be empty",
            )));
        }
        match &self.execute {
            ExecuteConfig::Shell { command, stop_command, .. } => {
                match validate_shell_command(command.as_str()) {
                    Ok(()) => {},
                    Err(e) => {
                        return Err(ConfigError::UnsafeShellCommand(e.message()));
                    },
                }
                match stop_command {
                    Some(sc) => {
                        match validate_shell_command(sc.as_str()) {
                            Ok(()) => {},
                            Err(e) => {
                                return Err(ConfigError::UnsafeShellCommand(e.message()));
                            },
                        }
                    },
                    None => {},
                }
            },
            _ => {},
        }
        Ok(())
    }
}

/// The names declared by a workspace.
pub open spec fn spec_config_names(services: Seq<(String, ServiceConfig)>) -> Seq<String> {
    services.map_values(|p: (String, ServiceConfig)| p.0)
}

/// Every dependency of every service names a declared service.
pub open spec fn spec_config_deps_known(services: Seq<(String, ServiceConfig)>) -> bool {
    forall|j: int, k: int|
        0 <= j < services.len() && 0 <= k < services[j].1.dependencies@.len()
            ==> spec_name_in(
                spec_config_names(services),
                (#[trigger] services[j].1.dependencies@[k]).spec_service(),
            )
}

/// No service uses the container executor.
pub open spec fn spec_config_no_docker(services: Seq<(String, ServiceConfig)>) -> bool {
    forall|j: int| 0 <= j < services.len()
        ==> !((#[trigger] services[j].1.execute) is Docker)
}

/// Every service passes its own validation.
pub open spec fn spec_config_services_ok(services: Seq<(String, ServiceConfig)>) -> bool {
    forall|j: int| 0 <= j < services.len()
        ==> spec_service_ok((#[trigger] services[j]).0@, services[j].1)
}

/// A workspace that passes validation.
pub open spec fn spec_config_ok(c: KrillConfig) -> bool {
    &&& c.version@ == "1"@
    &&& spec_valid_service_name(c.name@)
    &&& c.services@.len() > 0
    &&& spec_config_services_ok(c.services@)
    &&& spec_config_deps_known(c.services@)
    &&& spec_config_no_docker(c.services@)
}

impl KrillConfig {
    /// Validate the whole workspace: version "1", a usable name, at least
    /// one service, and every service valid with known dependency targets
    /// and no container executor.
    pub fn validate(&self) -> (r: Result<(), ConfigError>)
        ensures
            r is Ok <==> spec_config_ok(*self),
            r matches Err(e) ==> match e {
                ConfigError::UnsupportedVersion(v) => v@ == self.version@
                    && self.version@ != "1"@,
                ConfigError::InvalidWorkspaceName(_) =>
                    !spec_valid_service_name(self.name@),
                ConfigError::NoServices => self.services@.len() == 0,
                ConfigError::InvalidServiceName(_) => !spec_config_services_ok(
                    self.services@,
                ),
                ConfigError::UnsafeShellCommand(_) => !spec_config_services_ok(
                    self.services@,
                ),
                ConfigError::UnknownDependency { .. } => !spec_config_deps_known(
                    self.services@,
                ),
                ConfigError::DockerRequiresPro => !spec_config_no_docker(self.services@),
                _ => false,
            },
    {
        if !str_eq(self.version.as_str(), "1") {
            return Err(ConfigError::UnsupportedVersion(self.version.clone()));
        }
        let name_chars = crate::strutil::to_chars(self.name.as_str());
        if name_chars.len() == 0 {
            return Err(ConfigError::InvalidWorkspaceName(String::from_str(
                "Workspace name cannot be empty",
            )));
        }
        let mut i: usize = 0;
        while i < name_chars.len()
            invariant
                name_chars@ == self.name@,
                i <= name_chars@.len(),
                forall|k: int| 0 <= k < i ==> spec_name_char(#[trigger] name_chars@[k]),
            decreases name_chars@.len() - i,
        {
            let c = name_chars[i];
            if !(crate::process::char_is_alphanumeric(c) || c == '-' || c == '_') {
                let mut m = String::new();
                m.append("Workspace name '");
                m.append(self.name.as_str());
                m.append("' contains invalid characters");
                return Err(ConfigError::InvalidWorkspaceName(m));
            }
            i = i + 1;
        }
        if self.services.len() == 0 {
            return Err(ConfigError::NoServices);
        }
        // collect the declared names for dependency lookups
        let mut names: Vec<String> = Vec::new();
        let mut j: usize = 0;
        while j < self.services.len()
            invariant
                j <= self.services@.len(),
                names@.len() == j,
                forall|t: int| 0 <= t < j ==> #[trigger] names@[t] == self.services@[t].0,
            decreases self.services@.len() - j,
        {
            names.push(self.services[j].0.clone());
            j = j + 1;
        }
        let mut j2: usize = 0;
        while j2 < self.services.len()
            invariant
                j2 <= self.services@.len(),
                names@.len() == self.services@.len(),
                forall|t: int| 0 <= t < self.services@.len()
                    ==> #[trigger] names@[t] == self.services@[t].0,
                forall|t: int| 0 <= t < j2
                    ==> spec_service_ok(
                        (#[trigger] self.services@[t]).0@,
                        self.services@[t].1,
                    ),
                forall|t: int, k: int|
                    0 <= t < j2 && 0 <= k < self.services@[t].1.dependencies@.len()
                        ==> spec_name_in(
                            spec_config_names(self.services@),
                            (#[trigger] self.services@[t].1.dependencies@[k]).spec_service(),
                        ),
                forall|t: int| 0 <= t < j2
                    ==> !((#[trigger] self.services@[t].1.execute) is Docker),
            decreases self.services@.len() - j2,
        {
            let (ref sname, ref svc) = self.services[j2];
            match svc.validate(sname.as_str()) {
                Ok(()) => {},
                Err(e) => {
                    return Err(e);
                },
            }
            let mut k: usize = 0;
            while k < svc.dependencies.len()
                invariant
                    j2 < self.services@.len(),
                    *svc == self.services@[j2 as int].1,
                    *sname == self.services@[j2 as int].0,
                    names@.len() == self.services@.len(),
                    forall|t: int| 0 <= t < self.services@.len()
                        ==> #[trigger] names@[t] == self.services@[t].0,
                    k <= svc.dependencies@.len(),
                    forall|t: int| 0 <= t < k
                        ==> spec_name_in(
                            spec_config_names(self.services@),
                            (#[trigger] svc.dependencies@[t]).spec_service(),
                        ),
                decreases svc.dependencies@.len() - k,
            {
                let dep_name = svc.dependencies[k].service_name();
                match find_name(&names, dep_name) {
                    Some(ix) => {
                        proof {
                            assert(spec_config_names(self.services@)[ix as int]@
                                == dep_name@);
                        }
                    },
                    None => {
                        proof {
                            assert(!spec_config_deps_known(self.services@)) by {
                                if spec_name_in(
                                    spec_config_names(self.services@),
                                    svc.dependencies@[k as int].spec_service(),
                                ) {
                                    let t = choose|t: int|
                                        0 <= t < spec_config_names(self.services@).len()
                                            && (#[trigger] spec_config_names(
                                            self.services@,
                                        )[t])@ == svc.dependencies@[k as int].spec_service();
                                    assert(names@[t]@ == dep_name@);
                                }
                            }
                        }
                        return Err(ConfigError::UnknownDependency {
                            service: sname.clone(),
                            dependency: dep_name.to_owned(),
                        });
                    },
                }
                k = k + 1;
            }
            match &svc.execute {
                ExecuteConfig::Docker { .. } => {
                    return Err(ConfigError::DockerRequiresPro);
                },
                _ => {},
            }
            j2 = j2 + 1;
        }
        Ok(())
    }

    /// Resolve every service's relative working directory against the
    /// manifest's parent directory.
    pub fn resolve_paths(&mut self, base_dir: &str)
        ensures
            final(self).version == old(self).version,
            final(self).name == old(self).name,
            final(self).log_dir == old(self).log_dir,
            final(self).env == old(self).env,
            final(self).services@.len() == old(self).services@.len(),
            forall|j: int| 0 <= j < old(self).services@.len()
                ==> (#[trigger] final(self).services@[j]).0 == old(self).services@[j].0
                    && final(self).services@[j].1.dependencies
                        == old(self).services@[j].1.dependencies
                    && final(self).services@[j].1.critical
                        == old(self).services@[j].1.critical
                    && final(self).services@[j].1.gpu == old(self).services@[j].1.gpu
                    && final(self).services@[j].1.health_check
                        == old(self).services@[j].1.health_check
                    && final(self).services@[j].1.policy == old(self).services@[j].1.policy
                    && spec_exec_resolved(
                        base_dir@,
                        old(self).services@[j].1.execute,
                        final(self).services@[j].1.execute,
                    ),
    {
        let ghost orig = self.services@;
        let ghost v0 = self.version;
        let ghost n0 = self.name;
        let ghost l0 = self.log_dir;
        let ghost e0 = self.env;
        let mut done: Vec<(String, ServiceConfig)> = Vec::new();
        while self.services.len() > 0
            invariant
                self.version == v0,
                self.name == n0,
                self.log_dir == l0,
                self.env == e0,
                done@.len() + self.services@.len() == orig.len(),
                forall|t: int| 0 <= t < self.services@.len()
                    ==> #[trigger] self.services@[t] == orig[done@.len() + t],
                forall|j: int| 0 <= j < done@.len()
                    ==> (#[trigger] done@[j]).0 == orig[j].0
                        && done@[j].1.dependencies == orig[j].1.dependencies
                        && done@[j].1.critical == orig[j].1.critical
                        && done@[j].1.gpu == orig[j].1.gpu
                        && done@[j].1.health_check == orig[j].1.health_check
                        && done@[j].1.policy == orig[j].1.policy
                        && spec_exec_resolved(base_dir@, orig[j].1.execute, done@[j].1.execute),
            decreases self.services@.len(),
        {
            let (name, mut svc) = self.services.remove(0);
            svc.execute.resolve_working_dir(base_dir);
            done.push((name, svc));
        }
        self.services = done;
    }
}

} // verus!
