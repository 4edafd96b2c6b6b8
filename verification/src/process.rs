//! Translation of an `ExecuteConfig` into a concrete argv, the process-name
//! scheme, and the process-group operations used to isolate and signal a
//! service's children.

use crate::execute::{ExecuteConfig, PortMapping, VolumeMount};
use crate::strutil::{push_char, spec_u64_string, u64_to_string};
use vstd::prelude::*;
use vstd::string::StringExecFns;

verus! {

/// Why a process operation failed.
#[derive(Debug)]
pub enum ProcessError {
    InvalidName(String),
    BuildFailed(String),
    PgidError(String),
    CommandNotFound(String),
}

impl ProcessError {
    /// The human-readable description of the error.
    pub fn message(&self) -> (r: String)
        ensures
            match self {
                ProcessError::InvalidName(s) => r@ == "Invalid process name: "@ + s@,
                ProcessError::BuildFailed(s) => r@ == "Command build failed: "@ + s@,
                ProcessError::PgidError(s) => r@ == "PGID isolation failed: "@ + s@,
                ProcessError::CommandNotFound(s) => r@ == "Command not found: "@ + s@,
            },
    {
        let mut m = String::new();
        match self {
            ProcessError::InvalidName(s) => {
                m.append("Invalid process name: ");
                m.append(s.as_str());
            },
            ProcessError::BuildFailed(s) => {
                m.append("Command build failed: ");
                m.append(s.as_str());
            },
            ProcessError::PgidError(s) => {
                m.append("PGID isolation failed: ");
                m.append(s.as_str());
            },
            ProcessError::CommandNotFound(s) => {
                m.append("Command not found: ");
                m.append(s.as_str());
            },
        }
        m
    }
}

/// What `char::is_alphanumeric` returns; the result depends on the
/// character alone.
pub uninterp spec fn spec_is_alphanumeric(c: char) -> bool;

/// Relies on char::is_alphanumeric: Unicode letter-or-digit test.
#[verifier::external_body]
pub fn char_is_alphanumeric(c: char) -> (r: bool)
    ensures
        r == spec_is_alphanumeric(c),
{
    c.is_alphanumeric()
}

/// Characters a service name may hold.
pub open spec fn spec_name_char(c: char) -> bool {
    spec_is_alphanumeric(c) || c == '-' || c == '_'
}

/// A usable service name: nonempty, made of letters, digits, hyphens and
/// underscores.
pub open spec fn spec_valid_service_name(s: Seq<char>) -> bool {
    s.len() > 0 && forall|k: int| 0 <= k < s.len() ==> spec_name_char(#[trigger] s[k])
}

/// The process name given to a service instance.
pub open spec fn spec_process_name(service: Seq<char>, instance_id: Option<u32>) -> Seq<char> {
    match instance_id {
        Some(id) => "krill."@ + service + seq!['.'] + spec_u64_string(id as nat),
        None => "krill."@ + service,
    }
}

/// Generate a unique process name for a service instance. Fails exactly
/// when the service name is empty or holds a character outside letters,
/// digits, hyphens and underscores.
pub fn generate_process_name(service_name: &str, instance_id: Option<u32>) -> (r: Result<
    String,
    ProcessError,
>)
    ensures
        r is Ok <==> spec_valid_service_name(service_name@),
        r matches Ok(p) ==> p@ == spec_process_name(service_name@, instance_id),
{
    let chars = crate::strutil::to_chars(service_name);
    let mut i: usize = 0;
    while i < chars.len()
        invariant
            chars@ == service_name@,
            i <= chars@.len(),
            forall|k: int| 0 <= k < i ==> spec_name_char(#[trigger] chars@[k]),
        decreases chars@.len() - i,
    {
        let c = chars[i];
        if !(char_is_alphanumeric(c) || c == '-' || c == '_') {
            let mut m = String::new();
            m.append("service name contains invalid characters: ");
            m.append(service_name);
            return Err(ProcessError::InvalidName(m));
        }
        i = i + 1;
    }
    if chars.len() == 0 {
        return Err(ProcessError::InvalidName(String::from_str(
            "Service name cannot be empty",
        )));
    }
    let mut p = String::new();
    p.append("krill.");
    p.append(service_name);
    match instance_id {
        Some(id) => {
            push_char(&mut p, '.');
            let digits = u64_to_string(id as u64);
            p.append(digits.as_str());
            proof {
                assert(p@ =~= spec_process_name(service_name@, instance_id));
            }
        },
        None => {
            proof {
                assert(p@ =~= spec_process_name(service_name@, instance_id));
            }
        },
    }
    Ok(p)
}

/// The argv for one bind-mount flag value: `host:container`, with `:ro`
/// appended for a read-only mount.
pub open spec fn spec_volume_arg(v: VolumeMount) -> Seq<char> {
    v.spec_host() + seq![':'] + v.spec_container() + if v.spec_read_only() {
        ":ro"@
    } else {
        Seq::<char>::empty()
    }
}

/// The `-v` flag pairs for a list of mounts.
pub open spec fn spec_volume_args(vs: Seq<VolumeMount>) -> Seq<Seq<char>>
    decreases vs.len(),
{
    if vs.len() == 0 {
        Seq::empty()
    } else {
        spec_volume_args(vs.drop_last()) + seq!["-v"@, spec_volume_arg(vs.last())]
    }
}

/// One port flag value: `host:container/protocol`.
pub open spec fn spec_port_arg(p: PortMapping) -> Seq<char> {
    spec_u64_string(p.host as nat) + seq![':'] + spec_u64_string(p.container as nat)
        + seq!['/'] + p.protocol@
}

/// The `-p` flag pairs for a list of port mappings.
pub open spec fn spec_port_args(ps: Seq<PortMapping>) -> Seq<Seq<char>>
    decreases ps.len(),
{
    if ps.len() == 0 {
        Seq::empty()
    } else {
        spec_port_args(ps.drop_last()) + seq!["-p"@, spec_port_arg(ps.last())]
    }
}

/// The `-e` flag pairs for environment entries, each `key=value`.
pub open spec fn spec_env_args(env: Seq<(String, String)>) -> Seq<Seq<char>>
    decreases env.len(),
{
    if env.len() == 0 {
        Seq::empty()
    } else {
        spec_env_args(env.drop_last())
            + seq!["-e"@, env.last().0@ + seq!['='] + env.last().1@]
    }
}

/// One launch argument: `key:=value`.
pub open spec fn spec_launch_args(args: Seq<(String, String)>) -> Seq<Seq<char>>
    decreases args.len(),
{
    if args.len() == 0 {
        Seq::empty()
    } else {
        spec_launch_args(args.drop_last())
            + seq![args.last().0@ + ":="@ + args.last().1@]
    }
}

/// The complete argv for a configuration: `pixi run [-e env] task`;
/// `ros2 launch package file key:=value...`; `sh -c command`; or the
/// `docker run` command with its mounts, ports, flags, environment and
/// image.
pub open spec fn spec_build_command(
    config: ExecuteConfig,
    env: Seq<(String, String)>,
) -> Seq<Seq<char>> {
    match config {
        ExecuteConfig::Pixi { task, environment, .. } => seq!["pixi"@, "run"@]
            + match environment {
                Some(e) => seq!["-e"@, e@],
                None => Seq::empty(),
            } + seq![task@],
        ExecuteConfig::Ros2 { package, launch_file, launch_args, .. } => seq![
            "ros2"@,
            "launch"@,
            package@,
            launch_file@,
        ] + spec_launch_args(launch_args@),
        ExecuteConfig::Shell { command, .. } => seq!["sh"@, "-c"@, command@],
        ExecuteConfig::Docker { image, volumes, ports, privileged, network } => seq![
            "docker"@,
            "run"@,
        ] + spec_volume_args(volumes@) + spec_port_args(ports@) + if privileged {
            seq!["--privileged"@]
        } else {
            Seq::empty()
        } + match network {
            Some(net) => seq!["--network"@, net@],
            None => Seq::empty(),
        } + spec_env_args(env) + seq![image@],
    }
}

/// The views of a built argv.
pub open spec fn arg_views(cmd: Seq<String>) -> Seq<Seq<char>> {
    cmd.map_values(|s: String| s@)
}

/// Build a complete command from an `ExecuteConfig`; the given environment
/// is passed as `-e key=value` flags to a container executor and is
/// otherwise unused here.
pub fn build_command(config: &ExecuteConfig, env_vars: &Vec<(String, String)>) -> (r: Result<
    Vec<String>,
    ProcessError,
>)
    ensures
        r is Ok,
        r matches Ok(cmd) ==> arg_views(cmd@) == spec_build_command(*config, env_vars@),
{
    let mut out: Vec<String> = Vec::new();
    match config {
        ExecuteConfig::Pixi { task, environment, .. } => {
            out.push(String::from_str("pixi"));
            out.push(String::from_str("run"));
            match environment {
                Some(e) => {
                    out.push(String::from_str("-e"));
                    out.push(e.clone());
                },
                None => {},
            }
            out.push(task.clone());
            proof {
                assert(arg_views(out@) =~~= spec_build_command(*config, env_vars@));
            }
        },
        ExecuteConfig::Ros2 { package, launch_file, launch_args, .. } => {
            out.push(String::from_str("ros2"));
            out.push(String::from_str("launch"));
            out.push(package.clone());
            out.push(launch_file.clone());
            let ghost head = arg_views(out@);
            let mut i: usize = 0;
            while i < launch_args.len()
                invariant
                    i <= launch_args@.len(),
                    arg_views(out@) == head + spec_launch_args(launch_args@.subrange(0, i as int)),
                decreases launch_args@.len() - i,
            {
                let mut arg = launch_args[i].0.clone();
                arg.append(":=");
                arg.append(launch_args[i].1.as_str());
                let ghost prev = out@;
                let ghost argv = arg@;
                out.push(arg);
                proof {
                    let pre = launch_args@.subrange(0, i as int);
                    let cur = launch_args@.subrange(0, i + 1);
                    assert(cur.drop_last() =~= pre);
                    assert(cur.last() == launch_args@[i as int]);
                    assert(spec_launch_args(cur)
                        =~~= spec_launch_args(pre) + seq![
                        launch_args@[i as int].0@ + ":="@ + launch_args@[i as int].1@,
                    ]);
                    assert(argv == launch_args@[i as int].0@ + ":="@
                        + launch_args@[i as int].1@);
                    assert(arg_views(out@) =~~= arg_views(prev) + seq![argv]);
                    assert(arg_views(out@) =~~= head + spec_launch_args(cur));
                }
                i = i + 1;
            }
            proof {
                assert(launch_args@.subrange(0, launch_args@.len() as int) =~= launch_args@);
                assert(arg_views(out@) =~~= spec_build_command(*config, env_vars@));
            }
        },
        ExecuteConfig::Shell { command, .. } => {
            out.push(String::from_str("sh"));
            out.push(String::from_str("-c"));
            out.push(command.clone());
            proof {
                assert(arg_views(out@) =~~= spec_build_command(*config, env_vars@));
            }
        },
        ExecuteConfig::Docker { image, volumes, ports, privileged, network } => {
            out.push(String::from_str("docker"));
            out.push(String::from_str("run"));
            let ghost head0 = arg_views(out@);
            let mut i: usize = 0;
            while i < volumes.len()
                invariant
                    i <= volumes@.len(),
                    arg_views(out@) == head0 + spec_volume_args(volumes@.subrange(0, i as int)),
                decreases volumes@.len() - i,
            {
                let v = &volumes[i];
                let mut spec_str = v.host().clone();
                push_char(&mut spec_str, ':');
                spec_str.append(v.container().as_str());
                if v.read_only() {
                    spec_str.append(":ro");
                }
                let ghost prev = out@;
                let ghost mount_view = spec_str@;
                out.push(String::from_str("-v"));
                out.push(spec_str);
                proof {
                    let pre = volumes@.subrange(0, i as int);
                    let cur = volumes@.subrange(0, i + 1);
                    assert(cur.drop_last() =~= pre);
                    assert(cur.last() == volumes@[i as int]);
                    assert(spec_volume_args(cur)
                        =~~= spec_volume_args(pre) + seq![
                        "-v"@,
                        spec_volume_arg(volumes@[i as int]),
                    ]);
                    assert(mount_view =~= spec_volume_arg(volumes@[i as int]));
                    assert(arg_views(out@) =~~= arg_views(prev) + seq!["-v"@, mount_view]);
                    assert(arg_views(out@) =~~= head0 + spec_volume_args(cur));
                }
                i = i + 1;
            }
            proof {
                assert(volumes@.subrange(0, volumes@.len() as int) =~= volumes@);
            }
            let ghost head1 = arg_views(out@);
            let mut j: usize = 0;
            while j < ports.len()
                invariant
                    j <= ports@.len(),
                    arg_views(out@) == head1 + spec_port_args(ports@.subrange(0, j as int)),
                decreases ports@.len() - j,
            {
                let p = &ports[j];
                let mut port_str = u64_to_string(p.host as u64);
                push_char(&mut port_str, ':');
                let cont = u64_to_string(p.container as u64);
                port_str.append(cont.as_str());
                push_char(&mut port_str, '/');
                port_str.append(p.protocol.as_str());
                let ghost prev = out@;
                let ghost port_view = port_str@;
                out.push(String::from_str("-p"));
                out.push(port_str);
                proof {
                    let pre = ports@.subrange(0, j as int);
                    let cur = ports@.subrange(0, j + 1);
                    assert(cur.drop_last() =~= pre);
                    assert(cur.last() == ports@[j as int]);
                    assert(spec_port_args(cur)
                        =~~= spec_port_args(pre) + seq![
                        "-p"@,
                        spec_port_arg(ports@[j as int]),
                    ]);
                    assert(port_view =~= spec_port_arg(ports@[j as int]));
                    assert(arg_views(out@) =~~= arg_views(prev) + seq!["-p"@, port_view]);
                    assert(arg_views(out@) =~~= head1 + spec_port_args(cur));
                }
                j = j + 1;
            }
            proof {
                assert(ports@.subrange(0, ports@.len() as int) =~= ports@);
            }
            proof {
                assert(arg_views(out@) =~~= seq!["docker"@, "run"@]
                    + spec_volume_args(volumes@) + spec_port_args(ports@));
            }
            if *privileged {
                out.push(String::from_str("--privileged"));
            }
            match network {
                Some(net) => {
                    out.push(String::from_str("--network"));
                    out.push(net.clone());
                },
                None => {},
            }
            proof {
                assert(arg_views(out@) =~~= seq!["docker"@, "run"@]
                    + spec_volume_args(volumes@) + spec_port_args(ports@)
                    + if *privileged {
                        seq!["--privileged"@]
                    } else {
                        Seq::<Seq<char>>::empty()
                    }
                    + match network {
                        Some(net) => seq!["--network"@, net@],
                        None => Seq::empty(),
                    });
            }
            let ghost head2 = arg_views(out@);
            let mut k: usize = 0;
            while k < env_vars.len()
                invariant
                    k <= env_vars@.len(),
                    arg_views(out@) == head2 + spec_env_args(env_vars@.subrange(0, k as int)),
                decreases env_vars@.len() - k,
            {
                let mut pair = env_vars[k].0.clone();
                push_char(&mut pair, '=');
                pair.append(env_vars[k].1.as_str());
                let ghost prev = out@;
                let ghost pair_view = pair@;
                out.push(String::from_str("-e"));
                out.push(pair);
                proof {
                    let pre = env_vars@.subrange(0, k as int);
                    let cur = env_vars@.subrange(0, k + 1);
                    assert(cur.drop_last() =~= pre);
                    assert(cur.last() == env_vars@[k as int]);
                    assert(spec_env_args(cur)
                        =~~= spec_env_args(pre) + seq![
                        "-e"@,
                        env_vars@[k as int].0@ + seq!['='] + env_vars@[k as int].1@,
                    ]);
                    assert(pair_view =~= env_vars@[k as int].0@ + seq!['=']
                        + env_vars@[k as int].1@);
                    assert(arg_views(out@) =~~= arg_views(prev) + seq!["-e"@, pair_view]);
                    assert(arg_views(out@) =~~= head2 + spec_env_args(cur));
                }
                k = k + 1;
            }
            proof {
                assert(env_vars@.subrange(0, env_vars@.len() as int) =~= env_vars@);
            }
            out.push(image.clone());
            proof {
                assert(arg_views(out@) =~~= head2 + spec_env_args(env_vars@)
                    + seq![image@]);
                assert(arg_views(out@) =~~= spec_build_command(*config, env_vars@));
            }
        },
    }
    Ok(out)
}

/// Get the working directory from an `ExecuteConfig`.
pub fn get_working_dir(config: &ExecuteConfig) -> (r: Option<String>)
    ensures
        r == config.spec_working_dir(),
{
    match config {
        ExecuteConfig::Pixi { working_dir, .. } => working_dir.clone(),
        ExecuteConfig::Ros2 { working_dir, .. } => working_dir.clone(),
        ExecuteConfig::Shell { working_dir, .. } => working_dir.clone(),
        ExecuteConfig::Docker { .. } => None,
    }
}

/// The stop argv of a configuration, if one is declared: the pixi stop
/// task mirrors the start invocation; a ros2 or shell stop command runs
/// under `sh -c`; a container has none.
pub open spec fn spec_stop_command(config: ExecuteConfig) -> Option<Seq<Seq<char>>> {
    match config {
        ExecuteConfig::Pixi { stop_task: Some(task), environment, .. } => Some(
            seq!["pixi"@, "run"@] + match environment {
                Some(e) => seq!["-e"@, e@],
                None => Seq::empty(),
            } + seq![task@],
        ),
        ExecuteConfig::Ros2 { stop_task: Some(task), .. } => Some(
            seq!["sh"@, "-c"@, task@],
        ),
        ExecuteConfig::Shell { stop_command: Some(cmd), .. } => Some(
            seq!["sh"@, "-c"@, cmd@],
        ),
        _ => None,
    }
}

/// Get the stop command from an `ExecuteConfig`.
pub fn get_stop_command(config: &ExecuteConfig) -> (r: Option<Vec<String>>)
    ensures
        r is Some <==> spec_stop_command(*config) is Some,
        r matches Some(cmd) ==> Some(arg_views(cmd@)) == spec_stop_command(*config),
{
    match config {
        ExecuteConfig::Pixi { stop_task: Some(task), environment, .. } => {
            let mut out: Vec<String> = Vec::new();
            out.push(String::from_str("pixi"));
            out.push(String::from_str("run"));
            match environment {
                Some(e) => {
                    out.push(String::from_str("-e"));
                    out.push(e.clone());
                },
                None => {},
            }
            out.push(task.clone());
            proof {
                assert(Some(arg_views(out@)) =~~= spec_stop_command(*config));
            }
            Some(out)
        },
        ExecuteConfig::Ros2 { stop_task: Some(task), .. } => {
            let mut out: Vec<String> = Vec::new();
            out.push(String::from_str("sh"));
            out.push(String::from_str("-c"));
            out.push(task.clone());
            proof {
                assert(arg_views(out@) =~~= seq!["sh"@, "-c"@, task@]);
            }
            Some(out)
        },
        ExecuteConfig::Shell { stop_command: Some(cmd), .. } => {
            let mut out: Vec<String> = Vec::new();
            out.push(String::from_str("sh"));
            out.push(String::from_str("-c"));
            out.push(cmd.clone());
            proof {
                assert(arg_views(out@) =~~= seq!["sh"@, "-c"@, cmd@]);
            }
            Some(out)
        },
        _ => None,
    }
}

/// The signal kind of the host platform, as nix exposes it.
#[verifier::external_type_specification]
#[verifier::external_body]
pub struct ExSignal(nix::sys::signal::Signal);

/// Relies on nix::unistd::setpgid: places the process `pid` into the
/// process group `pid`, making it its own group leader. Fails when the
/// kernel refuses.
#[verifier::external_body]
pub fn setup_process_group(pid: u32) -> (r: Result<(), ProcessError>)
{
    let process_pid = nix::unistd::Pid::from_raw(pid as i32);
    match nix::unistd::setpgid(process_pid, process_pid) {
        Ok(()) => Ok(()),
        Err(e) => Err(ProcessError::PgidError(format!(
            "Failed to set process group: {}",
            e
        ))),
    }
}

/// Relies on nix::sys::signal::killpg: delivers `signal` to every process
/// in the group `pgid`. Fails when the kernel refuses.
#[verifier::external_body]
pub fn kill_process_group(pgid: u32, signal: nix::sys::signal::Signal) -> (r: Result<
    (),
    ProcessError,
>)
{
    let process_pgid = nix::unistd::Pid::from_raw(pgid as i32);
    match nix::sys::signal::killpg(process_pgid, signal) {
        Ok(()) => Ok(()),
        Err(e) => Err(ProcessError::PgidError(format!(
            "Failed to kill process group: {}",
            e
        ))),
    }
}

/// Relies on nix::unistd::getpgid: reads the process group of `pid` from
/// the kernel; the group may change between calls.
#[verifier::external_body]
pub fn get_process_group(pid: u32) -> (r: Result<u32, ProcessError>)
{
    let process_pid = nix::unistd::Pid::from_raw(pid as i32);
    match nix::unistd::getpgid(Some(process_pid)) {
        Ok(pgid) => Ok(pgid.as_raw() as u32),
        Err(e) => Err(ProcessError::PgidError(format!(
            "Failed to get process group: {}",
            e
        ))),
    }
}

} // verus!
