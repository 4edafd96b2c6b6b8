//! The wire protocol of the control socket: message types exchanged as one
//! JSON value per line, and their encoder and decoder. The encoder is
//! specified to the character; the decoder re-encodes what it parsed and
//! accepts only when the text matches, so any accepted frame is exactly
//! the encoding of the returned message.

use crate::strutil::{push_char, spec_u64_string, str_eq, to_chars, u64_to_string};
use vstd::prelude::*;
use vstd::string::StringExecFns;

verus! {

/// Observable status of a service, as sent over the wire.
#[derive(Debug, Clone, Copy, PartialEq, Eq, Structural)]
pub enum ServiceStatus {
    Starting,
    Running,
    Healthy,
    Degraded,
    Stopping,
    Stopped,
    Failed,
}

/// Actions a client may request.
#[derive(Debug, Clone, Copy, PartialEq, Eq, Structural)]
pub enum CommandAction {
    Start,
    Stop,
    Restart,
    Kill,
    StopDaemon,
}

/// Severity carried by log-oriented protocol messages.
#[derive(Debug, Clone, Copy, PartialEq, Eq, Structural)]
pub enum LogLevel {
    Trace,
    Debug,
    Info,
    Warn,
    Error,
}

/// A span of time as carried on the wire: whole seconds and a nanosecond
/// remainder below one billion.
#[derive(Debug, Clone, Copy, PartialEq, Eq, Structural)]
pub struct DurationVal {
    pub secs: u64,
    pub nanos: u32,
}

/// Per-service state as reported in a snapshot reply: the live state,
/// and the descriptive facts of the service's declaration.
#[derive(Debug, Clone, PartialEq, Eq)]
pub struct ServiceSnapshot {
    pub status: ServiceStatus,
    pub pid: Option<u32>,
    pub uptime: Option<DurationVal>,
    pub restart_count: u32,
    pub last_error: Option<String>,
    pub namespace: String,
    pub executor_type: String,
    pub dependencies: Vec<String>,
    pub uses_gpu: bool,
    pub critical: bool,
    pub restart_policy: String,
    pub max_restarts: u32,
}

/// Messages from a client to the daemon.
#[derive(Debug, Clone, PartialEq, Eq)]
pub enum ClientMessage {
    Heartbeat {
        service: String,
        status: ServiceStatus,
        metadata: Vec<(String, String)>,
    },
    Command {
        action: CommandAction,
        target: Option<String>,
    },
    Subscribe {
        events: bool,
        logs: Option<String>,
    },
    GetSnapshot,
    GetLogs {
        service: Option<String>,
    },
}

/// Messages from the daemon to a client.
#[derive(Debug, Clone, PartialEq, Eq)]
pub enum ServerMessage {
    Ack {
        request_id: Option<String>,
    },
    Error {
        message: String,
        code: Option<i32>,
    },
    StatusUpdate {
        service: String,
        status: ServiceStatus,
    },
    LogLine {
        service: String,
        line: String,
    },
    Snapshot {
        services: Vec<(String, ServiceSnapshot)>,
    },
    LogHistory {
        service: Option<String>,
        lines: Vec<String>,
    },
}

// ---------------------------------------------------------------------
// Encoding: each message as one compact JSON value, specified to the
// character.
// ---------------------------------------------------------------------

/// The lowercase hexadecimal digit for a value below sixteen.
pub open spec fn spec_hex_digit(d: int) -> char {
    if d == 0 { '0' }
    else if d == 1 { '1' }
    else if d == 2 { '2' }
    else if d == 3 { '3' }
    else if d == 4 { '4' }
    else if d == 5 { '5' }
    else if d == 6 { '6' }
    else if d == 7 { '7' }
    else if d == 8 { '8' }
    else if d == 9 { '9' }
    else if d == 10 { 'a' }
    else if d == 11 { 'b' }
    else if d == 12 { 'c' }
    else if d == 13 { 'd' }
    else if d == 14 { 'e' }
    else { 'f' }
}

/// How one character reads inside a JSON string: quotes, backslashes and
/// the named control characters take two-character escapes, every other
/// control character a `\u00XX` escape, and anything else passes through.
pub open spec fn spec_escape_char(c: char) -> Seq<char> {
    if c == '"' {
        seq!['\\', '"']
    } else if c == '\\' {
        seq!['\\', '\\']
    } else if c == '\n' {
        seq!['\\', 'n']
    } else if c == '\r' {
        seq!['\\', 'r']
    } else if c == '\t' {
        seq!['\\', 't']
    } else if c == '\u{8}' {
        seq!['\\', 'b']
    } else if c == '\u{c}' {
        seq!['\\', 'f']
    } else if (c as u32) < 0x20 {
        seq!['\\', 'u', '0', '0', spec_hex_digit(((c as u32) / 16) as int), spec_hex_digit(
            ((c as u32) % 16) as int,
        )]
    } else {
        seq![c]
    }
}

/// A string's characters escaped for JSON.
pub open spec fn spec_escape(s: Seq<char>) -> Seq<char>
    decreases s.len(),
{
    if s.len() == 0 {
        Seq::empty()
    } else {
        spec_escape(s.drop_last()) + spec_escape_char(s.last())
    }
}

/// A JSON string literal: quotes around the escaped characters.
pub open spec fn spec_json_string(s: Seq<char>) -> Seq<char> {
    "\""@ + spec_escape(s) + "\""@
}

/// A JSON string or `null`.
pub open spec fn spec_json_opt_string(s: Option<String>) -> Seq<char> {
    match s {
        None => "null"@,
        Some(x) => spec_json_string(x@),
    }
}

/// The lowercase wire label of a status.
pub open spec fn spec_status_label(s: ServiceStatus) -> Seq<char> {
    match s {
        ServiceStatus::Starting => "starting"@,
        ServiceStatus::Running => "running"@,
        ServiceStatus::Healthy => "healthy"@,
        ServiceStatus::Degraded => "degraded"@,
        ServiceStatus::Stopping => "stopping"@,
        ServiceStatus::Stopped => "stopped"@,
        ServiceStatus::Failed => "failed"@,
    }
}

/// The snake_case wire label of a command action.
pub open spec fn spec_action_label(a: CommandAction) -> Seq<char> {
    match a {
        CommandAction::Start => "start"@,
        CommandAction::Stop => "stop"@,
        CommandAction::Restart => "restart"@,
        CommandAction::Kill => "kill"@,
        CommandAction::StopDaemon => "stop_daemon"@,
    }
}

/// A bare label in quotes.
pub open spec fn spec_quoted(l: Seq<char>) -> Seq<char> {
    "\""@ + l + "\""@
}

pub open spec fn spec_json_bool(b: bool) -> Seq<char> {
    if b {
        "true"@
    } else {
        "false"@
    }
}

/// A signed number in decimal.
pub open spec fn spec_json_i32(c: i32) -> Seq<char> {
    if c >= 0 {
        spec_u64_string(c as nat)
    } else {
        seq!['-'] + spec_u64_string((-(c as int)) as nat)
    }
}

pub open spec fn spec_json_opt_u32(p: Option<u32>) -> Seq<char> {
    match p {
        None => "null"@,
        Some(n) => spec_u64_string(n as nat),
    }
}

pub open spec fn spec_json_opt_i32(p: Option<i32>) -> Seq<char> {
    match p {
        None => "null"@,
        Some(c) => spec_json_i32(c),
    }
}

/// A duration as seconds and nanoseconds, as the wire carries it.
pub open spec fn spec_json_duration(d: DurationVal) -> Seq<char> {
    "{\"secs\":"@ + spec_u64_string(d.secs as nat) + ",\"nanos\":"@
        + spec_u64_string(d.nanos as nat) + "}"@
}

pub open spec fn spec_json_opt_duration(p: Option<DurationVal>) -> Seq<char> {
    match p {
        None => "null"@,
        Some(d) => spec_json_duration(d),
    }
}

/// String-to-string entries of a JSON object, comma separated.
pub open spec fn spec_metadata_json(ps: Seq<(String, String)>) -> Seq<char>
    decreases ps.len(),
{
    if ps.len() == 0 {
        Seq::empty()
    } else {
        spec_metadata_json(ps.drop_last()) + (if ps.len() > 1 {
            ","@
        } else {
            Seq::<char>::empty()
        }) + spec_json_string(ps.last().0@) + ":"@ + spec_json_string(ps.last().1@)
    }
}

/// Elements of a JSON string array, comma separated.
pub open spec fn spec_lines_json(ls: Seq<String>) -> Seq<char>
    decreases ls.len(),
{
    if ls.len() == 0 {
        Seq::empty()
    } else {
        spec_lines_json(ls.drop_last()) + (if ls.len() > 1 {
            ","@
        } else {
            Seq::<char>::empty()
        }) + spec_json_string(ls.last()@)
    }
}

/// The first half of a snapshot object: status, pid, uptime and the
/// restart counter.
pub open spec fn spec_snapshot_json_head(s: ServiceSnapshot) -> Seq<char> {
    "{\"status\":"@ + spec_quoted(spec_status_label(s.status)) + ",\"pid\":"@
        + spec_json_opt_u32(s.pid) + ",\"uptime\":"@ + spec_json_opt_duration(s.uptime)
        + ",\"restart_count\":"@ + spec_u64_string(s.restart_count as nat)
}

/// The second half of a snapshot object: last error, namespace and
/// executor type.
pub open spec fn spec_snapshot_json_tail(s: ServiceSnapshot) -> Seq<char> {
    ",\"last_error\":"@ + spec_json_opt_string(s.last_error) + ",\"namespace\":"@
        + spec_json_string(s.namespace@) + ",\"executor_type\":"@
        + spec_json_string(s.executor_type@)
}

/// The descriptive fields of a snapshot object: the declared dependency
/// names, the GPU and critical flags, and the restart policy and budget.
pub open spec fn spec_snapshot_json_desc(s: ServiceSnapshot) -> Seq<char> {
    ",\"dependencies\":["@ + spec_lines_json(s.dependencies@) + "],\"uses_gpu\":"@
        + spec_json_bool(s.uses_gpu) + ",\"critical\":"@ + spec_json_bool(s.critical)
        + ",\"restart_policy\":"@ + spec_json_string(s.restart_policy@)
        + ",\"max_restarts\":"@ + spec_u64_string(s.max_restarts as nat) + "}"@
}

/// One snapshot entry as a JSON object.
pub open spec fn spec_snapshot_json(s: ServiceSnapshot) -> Seq<char> {
    spec_snapshot_json_head(s) + spec_snapshot_json_tail(s) + spec_snapshot_json_desc(s)
}

/// The name-to-snapshot entries of a snapshot reply.
pub open spec fn spec_services_json(ps: Seq<(String, ServiceSnapshot)>) -> Seq<char>
    decreases ps.len(),
{
    if ps.len() == 0 {
        Seq::empty()
    } else {
        spec_services_json(ps.drop_last()) + (if ps.len() > 1 {
            ","@
        } else {
            Seq::<char>::empty()
        }) + spec_json_string(ps.last().0@) + ":"@ + spec_snapshot_json(ps.last().1)
    }
}

/// The full wire form of a client message.
pub open spec fn spec_client_json(m: ClientMessage) -> Seq<char> {
    match m {
        ClientMessage::Heartbeat { service, status, metadata } =>
            "{\"type\":\"heartbeat\",\"service\":"@ + spec_json_string(service@)
                + ",\"status\":"@ + spec_quoted(spec_status_label(status))
                + ",\"metadata\":{"@ + spec_metadata_json(metadata@) + "}}"@,
        ClientMessage::Command { action, target } =>
            "{\"type\":\"command\",\"action\":"@ + spec_quoted(spec_action_label(action))
                + ",\"target\":"@ + spec_json_opt_string(target) + "}"@,
        ClientMessage::Subscribe { events, logs } =>
            "{\"type\":\"subscribe\",\"events\":"@ + spec_json_bool(events)
                + ",\"logs\":"@ + spec_json_opt_string(logs) + "}"@,
        ClientMessage::GetSnapshot => "{\"type\":\"get_snapshot\"}"@,
        ClientMessage::GetLogs { service } => "{\"type\":\"get_logs\",\"service\":"@
            + spec_json_opt_string(service) + "}"@,
    }
}

/// The full wire form of a server message.
pub open spec fn spec_server_json(m: ServerMessage) -> Seq<char> {
    match m {
        ServerMessage::Ack { request_id } => "{\"type\":\"ack\",\"request_id\":"@
            + spec_json_opt_string(request_id) + "}"@,
        ServerMessage::Error { message, code } => "{\"type\":\"error\",\"message\":"@
            + spec_json_string(message@) + ",\"code\":"@ + spec_json_opt_i32(code) + "}"@,
        ServerMessage::StatusUpdate { service, status } =>
            "{\"type\":\"status_update\",\"service\":"@ + spec_json_string(service@)
                + ",\"status\":"@ + spec_quoted(spec_status_label(status)) + "}"@,
        ServerMessage::LogLine { service, line } => "{\"type\":\"log_line\",\"service\":"@
            + spec_json_string(service@) + ",\"line\":"@ + spec_json_string(line@) + "}"@,
        ServerMessage::Snapshot { services } => "{\"type\":\"snapshot\",\"services\":{"@
            + spec_services_json(services@) + "}}"@,
        ServerMessage::LogHistory { service, lines } =>
            "{\"type\":\"log_history\",\"service\":"@ + spec_json_opt_string(service)
                + ",\"lines\":["@ + spec_lines_json(lines@) + "]}"@,
    }
}

// ---------------------------------------------------------------------
// Encoder.
// ---------------------------------------------------------------------

fn hex_digit(d: u8) -> (c: char)
    requires
        d < 16,
    ensures
        c == spec_hex_digit(d as int),
{
    if d == 0 { '0' }
    else if d == 1 { '1' }
    else if d == 2 { '2' }
    else if d == 3 { '3' }
    else if d == 4 { '4' }
    else if d == 5 { '5' }
    else if d == 6 { '6' }
    else if d == 7 { '7' }
    else if d == 8 { '8' }
    else if d == 9 { '9' }
    else if d == 10 { 'a' }
    else if d == 11 { 'b' }
    else if d == 12 { 'c' }
    else if d == 13 { 'd' }
    else if d == 14 { 'e' }
    else { 'f' }
}

/// Append one character, escaped for JSON.
#[verifier::spinoff_prover]
fn write_escaped_char(out: &mut String, c: char)
    ensures
        final(out)@ == old(out)@ + spec_escape_char(c),
{
    if c == '"' {
        push_char(out, '\\');
        push_char(out, '"');
    } else if c == '\\' {
        push_char(out, '\\');
        push_char(out, '\\');
    } else if c == '\n' {
        push_char(out, '\\');
        push_char(out, 'n');
    } else if c == '\r' {
        push_char(out, '\\');
        push_char(out, 'r');
    } else if c == '\t' {
        push_char(out, '\\');
        push_char(out, 't');
    } else if c == '\u{8}' {
        push_char(out, '\\');
        push_char(out, 'b');
    } else if c == '\u{c}' {
        push_char(out, '\\');
        push_char(out, 'f');
    } else if (c as u32) < 0x20 {
        push_char(out, '\\');
        push_char(out, 'u');
        push_char(out, '0');
        push_char(out, '0');
        push_char(out, hex_digit(((c as u32) / 16) as u8));
        push_char(out, hex_digit(((c as u32) % 16) as u8));
        proof {
            assert((((c as u32) / 16) as u8) as int == ((c as u32) / 16) as int);
            assert((((c as u32) % 16) as u8) as int == ((c as u32) % 16) as int);
            assert(out@ =~= old(out)@ + spec_escape_char(c));
        }
    } else {
        push_char(out, c);
    }
}

/// Append a string's characters, escaped for JSON.
fn write_escaped(out: &mut String, s: &str)
    ensures
        final(out)@ == old(out)@ + spec_escape(s@),
{
    let chars = to_chars(s);
    let ghost base = out@;
    let mut i: usize = 0;
    while i < chars.len()
        invariant
            chars@ == s@,
            i <= chars@.len(),
            out@ == base + spec_escape(chars@.subrange(0, i as int)),
        decreases chars@.len() - i,
    {
        write_escaped_char(out, chars[i]);
        proof {
            let pre = chars@.subrange(0, i as int);
            let cur = chars@.subrange(0, i + 1);
            assert(cur.drop_last() =~= pre);
            assert(cur.last() == chars@[i as int]);
            assert(out@ =~= base + spec_escape(cur));
        }
        i = i + 1;
    }
    proof {
        assert(chars@.subrange(0, chars@.len() as int) =~= chars@);
    }
}

/// Append a JSON string literal.
pub(crate) fn write_json_string(out: &mut String, s: &str)
    ensures
        final(out)@ == old(out)@ + spec_json_string(s@),
{
    out.append("\"");
    write_escaped(out, s);
    out.append("\"");
    proof {
        assert(out@ =~= old(out)@ + spec_json_string(s@));
    }
}

/// Append a JSON string or `null`.
pub(crate) fn write_json_opt_string(out: &mut String, s: &Option<String>)
    ensures
        final(out)@ == old(out)@ + spec_json_opt_string(*s),
{
    match s {
        None => {
            out.append("null");
        },
        Some(x) => {
            write_json_string(out, x.as_str());
        },
    }
}

/// Append a quoted status label.
fn write_status(out: &mut String, s: ServiceStatus)
    ensures
        final(out)@ == old(out)@ + spec_quoted(spec_status_label(s)),
{
    out.append("\"");
    match s {
        ServiceStatus::Starting => out.append("starting"),
        ServiceStatus::Running => out.append("running"),
        ServiceStatus::Healthy => out.append("healthy"),
        ServiceStatus::Degraded => out.append("degraded"),
        ServiceStatus::Stopping => out.append("stopping"),
        ServiceStatus::Stopped => out.append("stopped"),
        ServiceStatus::Failed => out.append("failed"),
    }
    out.append("\"");
    proof {
        assert(out@ =~= old(out)@ + spec_quoted(spec_status_label(s)));
    }
}

/// Append a decimal number.
fn write_u64(out: &mut String, n: u64)
    ensures
        final(out)@ == old(out)@ + spec_u64_string(n as nat),
{
    let digits = u64_to_string(n);
    out.append(digits.as_str());
}

/// Append a signed decimal number.
fn write_i32(out: &mut String, c: i32)
    ensures
        final(out)@ == old(out)@ + spec_json_i32(c),
{
    if c >= 0 {
        write_u64(out, c as u64);
    } else {
        push_char(out, '-');
        let mag: u64 = (-(c as i64)) as u64;
        write_u64(out, mag);
        proof {
            assert(mag as nat == (-(c as int)) as nat);
            assert(out@ =~= old(out)@ + spec_json_i32(c));
        }
    }
}

impl ClientMessage {
    /// The message as one compact JSON value, exactly as specified.
    pub fn to_json(&self) -> (r: String)
        ensures
            r@ == spec_client_json(*self),
    {
        let mut out = String::new();
        match self {
            ClientMessage::Heartbeat { service, status, metadata } => {
                out.append("{\"type\":\"heartbeat\",\"service\":");
                write_json_string(&mut out, service.as_str());
                out.append(",\"status\":");
                write_status(&mut out, *status);
                out.append(",\"metadata\":{");
                let ghost base = out@;
                let mut i: usize = 0;
                while i < metadata.len()
                    invariant
                        i <= metadata@.len(),
                        out@ == base + spec_metadata_json(metadata@.subrange(0, i as int)),
                    decreases metadata@.len() - i,
                {
                    if i > 0 {
                        out.append(",");
                    }
                    write_json_string(&mut out, metadata[i].0.as_str());
                    out.append(":");
                    write_json_string(&mut out, metadata[i].1.as_str());
                    proof {
                        let pre = metadata@.subrange(0, i as int);
                        let cur = metadata@.subrange(0, i + 1);
                        assert(cur.drop_last() =~= pre);
                        assert(cur.last() == metadata@[i as int]);
                        assert(out@ =~= base + spec_metadata_json(cur));
                    }
                    i = i + 1;
                }
                proof {
                    assert(metadata@.subrange(0, metadata@.len() as int) =~= metadata@);
                }
                out.append("}}");
                proof {
                    assert(out@ =~= spec_client_json(*self));
                }
            },
            ClientMessage::Command { action, target } => {
                out.append("{\"type\":\"command\",\"action\":");
                out.append("\"");
                match action {
                    CommandAction::Start => out.append("start"),
                    CommandAction::Stop => out.append("stop"),
                    CommandAction::Restart => out.append("restart"),
                    CommandAction::Kill => out.append("kill"),
                    CommandAction::StopDaemon => out.append("stop_daemon"),
                }
                out.append("\"");
                out.append(",\"target\":");
                write_json_opt_string(&mut out, target);
                out.append("}");
                proof {
                    assert(out@ =~= spec_client_json(*self));
                }
            },
            ClientMessage::Subscribe { events, logs } => {
                out.append("{\"type\":\"subscribe\",\"events\":");
                if *events {
                    out.append("true");
                } else {
                    out.append("false");
                }
                out.append(",\"logs\":");
                write_json_opt_string(&mut out, logs);
                out.append("}");
                proof {
                    assert(out@ =~= spec_client_json(*self));
                }
            },
            ClientMessage::GetSnapshot => {
                out.append("{\"type\":\"get_snapshot\"}");
            },
            ClientMessage::GetLogs { service } => {
                out.append("{\"type\":\"get_logs\",\"service\":");
                write_json_opt_string(&mut out, service);
                out.append("}");
                proof {
                    assert(out@ =~= spec_client_json(*self));
                }
            },
        }
        out
    }
}

/// Append the first half of a snapshot object.
#[verifier::spinoff_prover]
fn write_snapshot_head(out: &mut String, s: &ServiceSnapshot)
    ensures
        final(out)@ == old(out)@ + spec_snapshot_json_head(*s),
{
    out.append("{\"status\":");
    write_status(out, s.status);
    out.append(",\"pid\":");
    match s.pid {
        None => out.append("null"),
        Some(p) => write_u64(out, p as u64),
    }
    proof {
        assert(out@ =~= old(out)@ + "{\"status\":"@ + spec_quoted(spec_status_label(s.status))
            + ",\"pid\":"@ + spec_json_opt_u32(s.pid));
    }
    let ghost c1 = out@;
    out.append(",\"uptime\":");
    match &s.uptime {
        None => out.append("null"),
        Some(d) => {
            out.append("{\"secs\":");
            write_u64(out, d.secs);
            out.append(",\"nanos\":");
            write_u64(out, d.nanos as u64);
            out.append("}");
        },
    }
    out.append(",\"restart_count\":");
    write_u64(out, s.restart_count as u64);
    proof {
        assert(out@ =~= c1 + ",\"uptime\":"@ + spec_json_opt_duration(s.uptime)
            + ",\"restart_count\":"@ + spec_u64_string(s.restart_count as nat));
        assert(out@ =~= old(out)@ + spec_snapshot_json_head(*s));
    }
}

/// Append the second half of a snapshot object.
#[verifier::spinoff_prover]
fn write_snapshot_tail(out: &mut String, s: &ServiceSnapshot)
    ensures
        final(out)@ == old(out)@ + spec_snapshot_json_tail(*s),
{
    out.append(",\"last_error\":");
    write_json_opt_string(out, &s.last_error);
    out.append(",\"namespace\":");
    write_json_string(out, s.namespace.as_str());
    out.append(",\"executor_type\":");
    write_json_string(out, s.executor_type.as_str());
    proof {
        assert(out@ =~= old(out)@ + ",\"last_error\":"@ + spec_json_opt_string(s.last_error)
            + ",\"namespace\":"@ + spec_json_string(s.namespace@)
            + ",\"executor_type\":"@ + spec_json_string(s.executor_type@));
    }
}

/// Append a comma-separated string array's elements.
fn write_lines(out: &mut String, lines: &Vec<String>)
    ensures
        final(out)@ == old(out)@ + spec_lines_json(lines@),
{
    let ghost base = out@;
    let mut i: usize = 0;
    while i < lines.len()
        invariant
            i <= lines@.len(),
            out@ == base + spec_lines_json(lines@.subrange(0, i as int)),
        decreases lines@.len() - i,
    {
        if i > 0 {
            out.append(",");
        }
        write_json_string(out, lines[i].as_str());
        proof {
            let pre = lines@.subrange(0, i as int);
            let cur = lines@.subrange(0, i + 1);
            assert(cur.drop_last() =~= pre);
            assert(cur.last() == lines@[i as int]);
            assert(out@ =~= base + spec_lines_json(cur));
        }
        i = i + 1;
    }
    proof {
        assert(lines@.subrange(0, lines@.len() as int) =~= lines@);
    }
}

/// Append the descriptive fields of a snapshot object.
#[verifier::spinoff_prover]
fn write_snapshot_desc(out: &mut String, s: &ServiceSnapshot)
    ensures
        final(out)@ == old(out)@ + spec_snapshot_json_desc(*s),
{
    out.append(",\"dependencies\":[");
    write_lines(out, &s.dependencies);
    out.append("],\"uses_gpu\":");
    if s.uses_gpu {
        out.append("true");
    } else {
        out.append("false");
    }
    out.append(",\"critical\":");
    if s.critical {
        out.append("true");
    } else {
        out.append("false");
    }
    out.append(",\"restart_policy\":");
    write_json_string(out, s.restart_policy.as_str());
    out.append(",\"max_restarts\":");
    write_u64(out, s.max_restarts as u64);
    out.append("}");
    proof {
        assert(out@ =~= old(out)@ + spec_snapshot_json_desc(*s));
    }
}

/// Append one snapshot object.
fn write_snapshot(out: &mut String, s: &ServiceSnapshot)
    ensures
        final(out)@ == old(out)@ + spec_snapshot_json(*s),
{
    write_snapshot_head(out, s);
    write_snapshot_tail(out, s);
    write_snapshot_desc(out, s);
    proof {
        assert(out@ =~= old(out)@ + spec_snapshot_json(*s));
    }
}

impl ServerMessage {
    /// The message as one compact JSON value, exactly as specified.
    #[verifier::rlimit(100)]
    #[verifier::spinoff_prover]
    pub fn to_json(&self) -> (r: String)
        ensures
            r@ == spec_server_json(*self),
    {
        let mut out = String::new();
        match self {
            ServerMessage::Ack { request_id } => {
                out.append("{\"type\":\"ack\",\"request_id\":");
                write_json_opt_string(&mut out, request_id);
                out.append("}");
                proof {
                    assert(out@ =~= spec_server_json(*self));
                }
            },
            ServerMessage::Error { message, code } => {
                out.append("{\"type\":\"error\",\"message\":");
                write_json_string(&mut out, message.as_str());
                out.append(",\"code\":");
                match code {
                    None => out.append("null"),
                    Some(c) => write_i32(&mut out, *c),
                }
                out.append("}");
                proof {
                    assert(out@ =~= spec_server_json(*self));
                }
            },
            ServerMessage::StatusUpdate { service, status } => {
                out.append("{\"type\":\"status_update\",\"service\":");
                write_json_string(&mut out, service.as_str());
                out.append(",\"status\":");
                write_status(&mut out, *status);
                out.append("}");
                proof {
                    assert(out@ =~= spec_server_json(*self));
                }
            },
            ServerMessage::LogLine { service, line } => {
                out.append("{\"type\":\"log_line\",\"service\":");
                write_json_string(&mut out, service.as_str());
                out.append(",\"line\":");
                write_json_string(&mut out, line.as_str());
                out.append("}");
                proof {
                    assert(out@ =~= spec_server_json(*self));
                }
            },
            ServerMessage::Snapshot { services } => {
                out.append("{\"type\":\"snapshot\",\"services\":{");
                let ghost base = out@;
                let mut i: usize = 0;
                while i < services.len()
                    invariant
                        i <= services@.len(),
                        out@ == base + spec_services_json(services@.subrange(0, i as int)),
                    decreases services@.len() - i,
                {
                    if i > 0 {
                        out.append(",");
                    }
                    write_json_string(&mut out, services[i].0.as_str());
                    out.append(":");
                    write_snapshot(&mut out, &services[i].1);
                    proof {
                        let pre = services@.subrange(0, i as int);
                        let cur = services@.subrange(0, i + 1);
                        assert(cur.drop_last() =~= pre);
                        assert(cur.last() == services@[i as int]);
                        assert(out@ =~= base + spec_services_json(cur));
                    }
                    i = i + 1;
                }
                proof {
                    assert(services@.subrange(0, services@.len() as int) =~= services@);
                }
                out.append("}}");
                proof {
                    assert(out@ =~= spec_server_json(*self));
                }
            },
            ServerMessage::LogHistory { service, lines } => {
                out.append("{\"type\":\"log_history\",\"service\":");
                write_json_opt_string(&mut out, service);
                out.append(",\"lines\":[");
                let ghost base = out@;
                let mut i: usize = 0;
                while i < lines.len()
                    invariant
                        i <= lines@.len(),
                        out@ == base + spec_lines_json(lines@.subrange(0, i as int)),
                    decreases lines@.len() - i,
                {
                    if i > 0 {
                        out.append(",");
                    }
                    write_json_string(&mut out, lines[i].as_str());
                    proof {
                        let pre = lines@.subrange(0, i as int);
                        let cur = lines@.subrange(0, i + 1);
                        assert(cur.drop_last() =~= pre);
                        assert(cur.last() == lines@[i as int]);
                        assert(out@ =~= base + spec_lines_json(cur));
                    }
                    i = i + 1;
                }
                proof {
                    assert(lines@.subrange(0, lines@.len() as int) =~= lines@);
                }
                out.append("]}");
                proof {
                    assert(out@ =~= spec_server_json(*self));
                }
            },
        }
        out
    }
}

// ---------------------------------------------------------------------
// Decoder: a strict parser for the canonical form, guarded by
// re-encoding. A frame is accepted only when re-encoding the parsed
// message reproduces the input text exactly, so every accepted frame is
// the encoding of the returned message.
// ---------------------------------------------------------------------

/// Consume an exact literal: succeeds precisely when the text at `pos`
/// spells it out, advancing past it.
fn eat_lit(v: &Vec<char>, pos: usize, lit: &str) -> (r: Option<usize>)
    ensures
        r matches Some(p) ==> p as int == pos + lit@.len() && pos + lit@.len() <= v@.len()
            && v@.subrange(pos as int, pos + lit@.len()) == lit@,
        r is None ==> !(pos + lit@.len() <= v@.len()
            && v@.subrange(pos as int, pos + lit@.len()) == lit@),
{
    let lit_chars = to_chars(lit);
    let n = lit_chars.len();
    let vlen = v.len();
    if pos > vlen || n > vlen - pos {
        return None;
    }
    let mut i: usize = 0;
    while i < n
        invariant
            pos + n <= vlen,
            vlen == v@.len(),
            n == lit_chars@.len(),
            lit_chars@ == lit@,
            i <= n,
            forall|k: int| 0 <= k < i ==> v@[pos + k] == lit@[k],
        decreases n - i,
    {
        if v[pos + i] != lit_chars[i] {
            proof {
                if v@.subrange(pos as int, pos + lit@.len()) == lit@ {
                    assert(v@.subrange(pos as int, pos + lit@.len())[i as int]
                        == lit@[i as int]);
                }
            }
            return None;
        }
        i = i + 1;
    }
    proof {
        assert(v@.subrange(pos as int, pos + lit@.len()) =~= lit@);
    }
    Some(pos + n)
}

/// Escaping a character yields one to six characters, never starting
/// with a quote, starting with a backslash exactly when the character is
/// rewritten.
proof fn lemma_escape_char_shape(c: char)
    ensures
        1 <= spec_escape_char(c).len() <= 6,
        spec_escape_char(c)[0] != '"',
        spec_escape_char(c).len() == 1 ==> spec_escape_char(c) == seq![c] && c != '"'
            && c != '\\',
        spec_escape_char(c).len() > 1 ==> spec_escape_char(c)[0] == '\\',
{
}

/// Escaping processes a string character by character from the left.
proof fn lemma_escape_unfold(s: Seq<char>)
    requires
        s.len() > 0,
    ensures
        spec_escape(s) == spec_escape_char(s[0]) + spec_escape(s.skip(1)),
    decreases s.len(),
{
    if s.len() == 1 {
        assert(s.drop_last() =~= Seq::<char>::empty());
        assert(s.skip(1) =~= Seq::<char>::empty());
        assert(s.last() == s[0]);
        assert(spec_escape(s) =~= spec_escape_char(s[0]) + spec_escape(s.skip(1)));
    } else {
        let d = s.drop_last();
        lemma_escape_unfold(d);
        assert(s.skip(1).drop_last() =~= d.skip(1));
        assert(s.skip(1).last() == s.last());
        assert(d[0] == s[0]);
        assert(spec_escape(s) =~= spec_escape_char(s[0]) + spec_escape(s.skip(1)));
    }
}

/// The text at `pos` reads as the escaped content `s` followed by the
/// closing quote.
pub open spec fn spec_content_at(v: Seq<char>, pos: int, s: Seq<char>) -> bool {
    &&& 0 <= pos
    &&& pos + spec_escape(s).len() + 1 <= v.len()
    &&& v.subrange(pos, pos + spec_escape(s).len()) == spec_escape(s)
    &&& v[pos + spec_escape(s).len()] == '"'
}

/// At a position whose character is not a quote, the content is nonempty,
/// its first character's whole escape is spelled out in the text, and the
/// remaining content follows it.
proof fn lemma_content_first(v: Seq<char>, pos: int, s: Seq<char>)
    requires
        spec_content_at(v, pos, s),
        v[pos] != '"',
    ensures
        s.len() > 0,
        spec_escape(s) == spec_escape_char(s[0]) + spec_escape(s.skip(1)),
        spec_escape(s).len() >= spec_escape_char(s[0]).len(),
        forall|i: int| 0 <= i < spec_escape_char(s[0]).len()
            ==> v[pos + i] == spec_escape_char(s[0])[i],
        pos + spec_escape_char(s[0]).len() <= v.len(),
        spec_content_at(v, pos + spec_escape_char(s[0]).len(), s.skip(1)),
{
    if s.len() == 0 {
        assert(v.subrange(pos, pos) =~= spec_escape(s));
        assert(v[pos] == '"');
    }
    lemma_escape_unfold(s);
    lemma_escape_char_shape(s[0]);
    let ec = spec_escape_char(s[0]);
    let el = ec.len() as int;
    let all = spec_escape(s);
    let bl = all.len() as int;
    assert forall|i: int| 0 <= i < el implies v[pos + i] == ec[i] by {
        assert(v.subrange(pos, pos + bl)[i] == all[i]);
        assert(all[i] == ec[i]);
    }
    let tail = spec_escape(s.skip(1));
    assert(tail =~= all.subrange(el, bl));
    assert(v.subrange(pos + el, pos + el + tail.len()) =~= tail) by {
        assert forall|i: int| 0 <= i < tail.len()
            implies v.subrange(pos + el, pos + el + tail.len())[i] == tail[i] by {
            assert(v.subrange(pos, pos + bl)[el + i] == all[el + i]);
        }
    }
}

/// A backslash introduces either a two-character escape, whose second
/// character names the original exactly, or the six-character escape.
proof fn lemma_content_two_escape(v: Seq<char>, pos: int, s: Seq<char>)
    requires
        spec_content_at(v, pos, s),
        v[pos] == '\\',
        pos + 1 < v.len(),
        v[pos + 1] != 'u',
    ensures
        s.len() > 0,
        spec_escape_char(s[0]) == seq!['\\', v[pos + 1]],
        spec_content_at(v, pos + 2, s.skip(1)),
{
    lemma_content_first(v, pos, s);
    lemma_escape_char_shape(s[0]);
    assert(v[pos] == spec_escape_char(s[0])[0]);
    assert(v[pos + 1] == spec_escape_char(s[0])[1]);
    assert(spec_escape_char(s[0]).len() == 2) by {
        if spec_escape_char(s[0]).len() == 6 {
            assert(spec_escape_char(s[0])[1] == 'u');
        }
    }
    assert(spec_escape_char(s[0]) =~= seq!['\\', v[pos + 1]]);
}

/// A `\u` escape spells a control character's code in two fixed zeros
/// and two hexadecimal digits.
proof fn lemma_content_u_escape(v: Seq<char>, pos: int, s: Seq<char>)
    requires
        spec_content_at(v, pos, s),
        v[pos] == '\\',
        pos + 1 < v.len(),
        v[pos + 1] == 'u',
    ensures
        s.len() > 0,
        spec_escape_char(s[0]).len() == 6,
        (s[0] as u32) < 0x20,
        pos + 6 <= v.len(),
        v[pos + 2] == '0',
        v[pos + 3] == '0',
        v[pos + 4] == spec_hex_digit((((s[0] as u32) / 16) as int)),
        v[pos + 5] == spec_hex_digit((((s[0] as u32) % 16) as int)),
        spec_content_at(v, pos + 6, s.skip(1)),
{
    lemma_content_first(v, pos, s);
    lemma_escape_char_shape(s[0]);
    assert(v[pos] == spec_escape_char(s[0])[0]);
    assert(v[pos + 1] == spec_escape_char(s[0])[1]);
    assert(spec_escape_char(s[0]).len() == 6);
    assert(v[pos + 2] == spec_escape_char(s[0])[2]);
    assert(v[pos + 3] == spec_escape_char(s[0])[3]);
    assert(v[pos + 4] == spec_escape_char(s[0])[4]);
    assert(v[pos + 5] == spec_escape_char(s[0])[5]);
}

/// Unescape a string body up to and past its closing quote. When the
/// text at `pos` is the canonical escaping of some content, that exact
/// content is appended and the position after the quote returned.
#[verifier::rlimit(100)]
#[verifier::spinoff_prover]
fn parse_str_content(v: &Vec<char>, pos: usize, out: &mut String) -> (r: Option<usize>)
    ensures
        r matches Some(p) ==> pos < p <= v@.len(),
        forall|s: Seq<char>| spec_content_at(v@, pos as int, s)
            ==> (r matches Some(p) && final(out)@ == old(out)@ + s
                && p as int == pos + spec_escape(s).len() + 1),
    decreases v@.len() - pos,
{
    if pos >= v.len() {
        return None;
    }
    let c = v[pos];
    if c == '"' {
        proof {
            assert forall|s: Seq<char>| spec_content_at(v@, pos as int, s)
                implies out@ == out@ + s && (pos + 1) as int
                    == pos + spec_escape(s).len() + 1 by {
                if s.len() > 0 {
                    lemma_escape_unfold(s);
                    lemma_escape_char_shape(s[0]);
                    assert(v@.subrange(pos as int, pos + spec_escape(s).len())[0]
                        == spec_escape(s)[0]);
                    assert(false);
                }
                assert(s =~= Seq::<char>::empty());
                assert(out@ =~= out@ + s);
            }
        }
        return Some(pos + 1);
    }
    if c == '\\' {
        if pos + 1 >= v.len() {
            proof {
                assert forall|s: Seq<char>| !spec_content_at(v@, pos as int, s) by {
                    if spec_content_at(v@, pos as int, s) {
                        lemma_content_first(v@, pos as int, s);
                        lemma_escape_char_shape(s[0]);
                        assert(v@[pos as int] == spec_escape_char(s[0])[0]);
                        assert(spec_escape_char(s[0]).len() > 1);
                    }
                }
            }
            return None;
        }
        let e = v[pos + 1];
        let decoded: char;
        let consumed: usize;
        if e == 'u' {
            if v.len() - pos <= 5 {
                proof {
                    assert forall|s: Seq<char>| !spec_content_at(v@, pos as int, s) by {
                        if spec_content_at(v@, pos as int, s) {
                            lemma_content_u_escape(v@, pos as int, s);
                        }
                    }
                }
                return None;
            }
            if v[pos + 2] != '0' || v[pos + 3] != '0' {
                proof {
                    assert forall|s: Seq<char>| !spec_content_at(v@, pos as int, s) by {
                        if spec_content_at(v@, pos as int, s) {
                            lemma_content_u_escape(v@, pos as int, s);
                        }
                    }
                }
                return None;
            }
            let h4 = v[pos + 4];
            let h5 = v[pos + 5];
            let hi = hex_val(h4);
            let lo = hex_val(h5);
            let (hi, lo) = match (hi, lo) {
                (Some(h), Some(l)) => (h, l),
                _ => {
                    proof {
                        assert forall|s: Seq<char>| !spec_content_at(v@, pos as int, s) by {
                            if spec_content_at(v@, pos as int, s) {
                                lemma_content_u_escape(v@, pos as int, s);
                                lemma_hex_digit_vals((((s[0] as u32) / 16) as int));
                                lemma_hex_digit_vals((((s[0] as u32) % 16) as int));
                            }
                        }
                    }
                    return None;
                },
            };
            let code: u8 = hi * 16 + lo;
            proof {
                assert forall|s: Seq<char>| #[trigger] spec_content_at(v@, pos as int, s)
                    implies s[0] == code as char && (code as u32) < 0x20 by {
                    lemma_content_u_escape(v@, pos as int, s);
                    assert(h4 == spec_hex_digit((((s[0] as u32) / 16) as int)));
                    assert(h5 == spec_hex_digit((((s[0] as u32) % 16) as int)));
                    lemma_hex_digit_inj((((s[0] as u32) / 16) as int), hi as int);
                    lemma_hex_digit_inj((((s[0] as u32) % 16) as int), lo as int);
                    assert(((s[0] as u32) / 16) == hi as u32);
                    assert(((s[0] as u32) % 16) == lo as u32);
                    assert((s[0] as u32) == (hi as u32) * 16 + (lo as u32));
                    assert((code as u32) == (hi as u32) * 16 + (lo as u32));
                    assert(((code as char) as u32) == (code as u32));
                    vstd::utf8::char_u32_cast(s[0], s[0] as u32);
                    vstd::utf8::char_u32_cast(code as char, (code as char) as u32);
                    assert(s[0] == code as char);
                }
            }
            if code >= 0x20 {
                proof {
                    assert forall|s: Seq<char>| !spec_content_at(v@, pos as int, s) by {}
                }
                return None;
            }
            decoded = code as char;
            consumed = 6;
            proof {
                assert forall|s: Seq<char>| #[trigger] spec_content_at(v@, pos as int, s)
                    implies s[0] == decoded
                        && spec_escape_char(s[0]).len() == consumed
                        && spec_content_at(v@, pos + consumed, s.skip(1)) by {
                    lemma_content_u_escape(v@, pos as int, s);
                }
            }
        } else {
            proof {
                assert forall|s: Seq<char>| #[trigger] spec_content_at(v@, pos as int, s)
                    implies spec_escape_char(s[0]) == seq!['\\', e] by {
                    lemma_content_two_escape(v@, pos as int, s);
                }
            }
            if e == 'n' {
                decoded = '\n';
            } else if e == 'r' {
                decoded = '\r';
            } else if e == 't' {
                decoded = '\t';
            } else if e == '"' {
                decoded = '"';
            } else if e == '\\' {
                decoded = '\\';
            } else if e == 'b' {
                decoded = '\u{8}';
            } else if e == 'f' {
                decoded = '\u{c}';
            } else {
                proof {
                    assert forall|s: Seq<char>| !spec_content_at(v@, pos as int, s) by {
                        if spec_content_at(v@, pos as int, s) {
                            lemma_content_two_escape(v@, pos as int, s);
                            lemma_escape_char_shape(s[0]);
                        }
                    }
                }
                return None;
            }
            consumed = 2;
            proof {
                assert forall|s: Seq<char>| #[trigger] spec_content_at(v@, pos as int, s)
                    implies s[0] == decoded
                        && spec_escape_char(s[0]).len() == consumed
                        && spec_content_at(v@, pos + consumed, s.skip(1)) by {
                    lemma_content_two_escape(v@, pos as int, s);
                }
            }
        }
        push_char(out, decoded);
        let ghost mid = out@;
        let r2 = parse_str_content(v, pos + consumed, out);
        proof {
            assert forall|s: Seq<char>| spec_content_at(v@, pos as int, s)
                implies (r2 matches Some(p) && out@ == old(out)@ + s
                    && p as int == pos + spec_escape(s).len() + 1) by {
                lemma_content_first(v@, pos as int, s);
                assert(spec_content_at(v@, pos + consumed, s.skip(1)));
                assert(out@ == mid + s.skip(1));
                assert(mid == old(out)@.push(decoded));
                assert(out@ =~= old(out)@ + s) by {
                    assert(s =~= seq![s[0]] + s.skip(1));
                }
            }
        }
        return r2;
    }
    // a raw character carries itself
    proof {
        assert forall|s: Seq<char>| spec_content_at(v@, pos as int, s)
            implies s[0] == c && spec_escape_char(s[0]).len() == 1
                && spec_content_at(v@, pos + 1, s.skip(1)) by {
            lemma_content_first(v@, pos as int, s);
            lemma_escape_char_shape(s[0]);
            assert(v@[pos as int] == spec_escape_char(s[0])[0]);
        }
    }
    push_char(out, c);
    let ghost mid = out@;
    let r2 = parse_str_content(v, pos + 1, out);
    proof {
        assert forall|s: Seq<char>| spec_content_at(v@, pos as int, s)
            implies (r2 matches Some(p) && out@ == old(out)@ + s
                && p as int == pos + spec_escape(s).len() + 1) by {
            lemma_content_first(v@, pos as int, s);
            assert(spec_content_at(v@, pos + 1, s.skip(1)));
            assert(out@ == mid + s.skip(1));
            assert(out@ =~= old(out)@ + s) by {
                assert(s =~= seq![s[0]] + s.skip(1));
            }
        }
    }
    r2
}

/// The text at `pos` reads as the JSON string literal for content `s`.
pub open spec fn spec_jstring_at(v: Seq<char>, pos: int, s: Seq<char>) -> bool {
    &&& 0 <= pos
    &&& pos + spec_escape(s).len() + 2 <= v.len()
    &&& v[pos] == '"'
    &&& v.subrange(pos + 1, pos + 1 + spec_escape(s).len()) == spec_escape(s)
    &&& v[pos + 1 + spec_escape(s).len()] == '"'
}

/// Parse a JSON string literal, unescaping as the encoder escapes. When
/// the text is the canonical literal for some content, that content and
/// the aligned position are returned.
fn parse_jstring(v: &Vec<char>, pos: usize) -> (r: Option<(String, usize)>)
    ensures
        r matches Some(p) ==> pos < p.1 <= v@.len(),
        forall|s: Seq<char>| spec_jstring_at(v@, pos as int, s)
            ==> (r matches Some(p) && p.0@ == s
                && p.1 as int == pos + spec_escape(s).len() + 2),
{
    if pos >= v.len() || v[pos] != '"' {
        return None;
    }
    let mut out = String::new();
    let r = parse_str_content(v, pos + 1, &mut out);
    proof {
        assert forall|s: Seq<char>| spec_jstring_at(v@, pos as int, s)
            implies spec_content_at(v@, pos + 1, s) by {}
    }
    match r {
        Some(p) => Some((out, p)),
        None => None,
    }
}

/// Hexadecimal digits are within their alphabet.
proof fn lemma_hex_digit_vals(d: int)
    ensures
        spec_hex_digit(d) == '0' || spec_hex_digit(d) == '1' || spec_hex_digit(d) == '2'
            || spec_hex_digit(d) == '3' || spec_hex_digit(d) == '4'
            || spec_hex_digit(d) == '5' || spec_hex_digit(d) == '6'
            || spec_hex_digit(d) == '7' || spec_hex_digit(d) == '8'
            || spec_hex_digit(d) == '9' || spec_hex_digit(d) == 'a'
            || spec_hex_digit(d) == 'b' || spec_hex_digit(d) == 'c'
            || spec_hex_digit(d) == 'd' || spec_hex_digit(d) == 'e'
            || spec_hex_digit(d) == 'f',
{
}

/// Within one hexadecimal place, equal digits mean equal values.
proof fn lemma_hex_digit_inj(d1: int, d2: int)
    requires
        0 <= d1 < 16,
        0 <= d2 < 16,
        spec_hex_digit(d1) == spec_hex_digit(d2),
    ensures
        d1 == d2,
{
}

/// The value of one lowercase hexadecimal digit.
fn hex_val(c: char) -> (r: Option<u8>)
    ensures
        r matches Some(d) ==> d < 16 && c == spec_hex_digit(d as int),
        r is None ==> forall|d: int| 0 <= d < 16 ==> c != spec_hex_digit(d),
{
    if c == '0' { Some(0) }
    else if c == '1' { Some(1) }
    else if c == '2' { Some(2) }
    else if c == '3' { Some(3) }
    else if c == '4' { Some(4) }
    else if c == '5' { Some(5) }
    else if c == '6' { Some(6) }
    else if c == '7' { Some(7) }
    else if c == '8' { Some(8) }
    else if c == '9' { Some(9) }
    else if c == 'a' { Some(10) }
    else if c == 'b' { Some(11) }
    else if c == 'c' { Some(12) }
    else if c == 'd' { Some(13) }
    else if c == 'e' { Some(14) }
    else if c == 'f' { Some(15) }
    else { None }
}

/// Parse a decimal number.
fn parse_ju64(v: &Vec<char>, pos: usize) -> (r: Option<(u64, usize)>)
    ensures
        r matches Some(p) ==> pos < p.1 <= v@.len(),
{
    if pos > v.len() {
        return None;
    }
    let mut i: usize = pos;
    let mut val: u64 = 0;
    let mut any = false;
    while i < v.len()
        invariant
            pos <= i <= v@.len(),
            any ==> pos < i,
        decreases v@.len() - i,
    {
        let c = v[i];
        if '0' <= c && c <= '9' {
            let d: u64 = (c as u32 as u64) - ('0' as u32 as u64);
            if val > (u64::MAX - d) / 10 {
                return None;
            }
            val = val * 10 + d;
            any = true;
            i = i + 1;
        } else {
            if any {
                return Some((val, i));
            }
            return None;
        }
    }
    if any {
        Some((val, i))
    } else {
        None
    }
}

/// Parse a signed number that fits an `i32`.
fn parse_ji32(v: &Vec<char>, pos: usize) -> (r: Option<(i32, usize)>)
    ensures
        r matches Some(p) ==> pos < p.1 <= v@.len(),
{
    if pos < v.len() && v[pos] == '-' {
        match parse_ju64(v, pos + 1) {
            Some((mag, p)) => {
                if mag > 2147483648 {
                    None
                } else {
                    Some(((-(mag as i64)) as i32, p))
                }
            },
            None => None,
        }
    } else {
        match parse_ju64(v, pos) {
            Some((mag, p)) => {
                if mag > 2147483647 {
                    None
                } else {
                    Some((mag as i32, p))
                }
            },
            None => None,
        }
    }
}

/// Parse a JSON string or `null`.
fn parse_opt_string(v: &Vec<char>, pos: usize) -> (r: Option<(Option<String>, usize)>)
    ensures
        r matches Some(p) ==> pos < p.1 <= v@.len(),
{
    if pos < v.len() && v[pos] == 'n' {
        match eat_lit(v, pos, "null") {
            Some(p) => {
                if p > pos {
                    Some((None, p))
                } else {
                    None
                }
            },
            None => None,
        }
    } else {
        match parse_jstring(v, pos) {
            Some((s, p)) => Some((Some(s), p)),
            None => None,
        }
    }
}

/// Parse a quoted status label.
fn parse_status(v: &Vec<char>, pos: usize) -> (r: Option<(ServiceStatus, usize)>)
    ensures
        r matches Some(p) ==> pos < p.1 <= v@.len(),
{
    match parse_jstring(v, pos) {
        Some((s, p)) => {
            if str_eq(s.as_str(), "starting") {
                Some((ServiceStatus::Starting, p))
            } else if str_eq(s.as_str(), "running") {
                Some((ServiceStatus::Running, p))
            } else if str_eq(s.as_str(), "healthy") {
                Some((ServiceStatus::Healthy, p))
            } else if str_eq(s.as_str(), "degraded") {
                Some((ServiceStatus::Degraded, p))
            } else if str_eq(s.as_str(), "stopping") {
                Some((ServiceStatus::Stopping, p))
            } else if str_eq(s.as_str(), "stopped") {
                Some((ServiceStatus::Stopped, p))
            } else if str_eq(s.as_str(), "failed") {
                Some((ServiceStatus::Failed, p))
            } else {
                None
            }
        },
        None => None,
    }
}

/// Parse a quoted action label.
fn parse_action(v: &Vec<char>, pos: usize) -> (r: Option<(CommandAction, usize)>)
    ensures
        r matches Some(p) ==> pos < p.1 <= v@.len(),
{
    match parse_jstring(v, pos) {
        Some((s, p)) => {
            if str_eq(s.as_str(), "start") {
                Some((CommandAction::Start, p))
            } else if str_eq(s.as_str(), "stop") {
                Some((CommandAction::Stop, p))
            } else if str_eq(s.as_str(), "restart") {
                Some((CommandAction::Restart, p))
            } else if str_eq(s.as_str(), "kill") {
                Some((CommandAction::Kill, p))
            } else if str_eq(s.as_str(), "stop_daemon") {
                Some((CommandAction::StopDaemon, p))
            } else {
                None
            }
        },
        None => None,
    }
}

/// Parse the members of a string-to-string object, up to its `}`.
fn parse_metadata(v: &Vec<char>, pos: usize) -> (r: Option<(Vec<(String, String)>, usize)>)
    ensures
        r matches Some(p) ==> pos <= p.1 <= v@.len(),
{
    if pos > v.len() {
        return None;
    }
    let mut out: Vec<(String, String)> = Vec::new();
    let mut i: usize = pos;
    if i < v.len() && v[i] == '}' {
        return Some((out, i));
    }
    loop
        invariant
            pos <= i <= v@.len(),
        decreases v@.len() - i,
    {
        let (k, p1) = match parse_jstring(v, i) {
            Some(x) => x,
            None => {
                return None;
            },
        };
        if p1 >= v.len() || v[p1] != ':' {
            return None;
        }
        let (val, p2) = match parse_jstring(v, p1 + 1) {
            Some(x) => x,
            None => {
                return None;
            },
        };
        out.push((k, val));
        if p2 < v.len() && v[p2] == ',' {
            if p2 + 1 <= i {
                return None;
            }
            i = p2 + 1;
        } else {
            return Some((out, p2));
        }
    }
}

/// Parse a client message in its canonical form, demanding the text end
/// with the message.
fn parse_client(v: &Vec<char>) -> (r: Option<ClientMessage>)
{
    match eat_lit(v, 0, "{\"type\":\"heartbeat\",\"service\":") {
        Some(p0) => {
            let (service, p1) = match parse_jstring(v, p0) {
                Some(x) => x,
                None => {
                    return None;
                },
            };
            let p2 = match eat_lit(v, p1, ",\"status\":") {
                Some(x) => x,
                None => {
                    return None;
                },
            };
            let (status, p3) = match parse_status(v, p2) {
                Some(x) => x,
                None => {
                    return None;
                },
            };
            let p4 = match eat_lit(v, p3, ",\"metadata\":{") {
                Some(x) => x,
                None => {
                    return None;
                },
            };
            let (metadata, p5) = match parse_metadata(v, p4) {
                Some(x) => x,
                None => {
                    return None;
                },
            };
            let p6 = match eat_lit(v, p5, "}}") {
                Some(x) => x,
                None => {
                    return None;
                },
            };
            if p6 != v.len() {
                return None;
            }
            return Some(ClientMessage::Heartbeat { service, status, metadata });
        },
        None => {},
    }
    match eat_lit(v, 0, "{\"type\":\"command\",\"action\":") {
        Some(p0) => {
            let (action, p1) = match parse_action(v, p0) {
                Some(x) => x,
                None => {
                    return None;
                },
            };
            let p2 = match eat_lit(v, p1, ",\"target\":") {
                Some(x) => x,
                None => {
                    return None;
                },
            };
            let (target, p3) = match parse_opt_string(v, p2) {
                Some(x) => x,
                None => {
                    return None;
                },
            };
            let p4 = match eat_lit(v, p3, "}") {
                Some(x) => x,
                None => {
                    return None;
                },
            };
            if p4 != v.len() {
                return None;
            }
            return Some(ClientMessage::Command { action, target });
        },
        None => {},
    }
    match eat_lit(v, 0, "{\"type\":\"subscribe\",\"events\":") {
        Some(p0) => {
            let (events, p1) = if pos_has(v, p0, 't') {
                match eat_lit(v, p0, "true") {
                    Some(x) => (true, x),
                    None => {
                        return None;
                    },
                }
            } else {
                match eat_lit(v, p0, "false") {
                    Some(x) => (false, x),
                    None => {
                        return None;
                    },
                }
            };
            let p2 = match eat_lit(v, p1, ",\"logs\":") {
                Some(x) => x,
                None => {
                    return None;
                },
            };
            let (logs, p3) = match parse_opt_string(v, p2) {
                Some(x) => x,
                None => {
                    return None;
                },
            };
            let p4 = match eat_lit(v, p3, "}") {
                Some(x) => x,
                None => {
                    return None;
                },
            };
            if p4 != v.len() {
                return None;
            }
            return Some(ClientMessage::Subscribe { events, logs });
        },
        None => {},
    }
    match eat_lit(v, 0, "{\"type\":\"get_snapshot\"}") {
        Some(p0) => {
            if p0 == v.len() {
                return Some(ClientMessage::GetSnapshot);
            }
            return None;
        },
        None => {},
    }
    match eat_lit(v, 0, "{\"type\":\"get_logs\",\"service\":") {
        Some(p0) => {
            let (service, p1) = match parse_opt_string(v, p0) {
                Some(x) => x,
                None => {
                    return None;
                },
            };
            let p2 = match eat_lit(v, p1, "}") {
                Some(x) => x,
                None => {
                    return None;
                },
            };
            if p2 != v.len() {
                return None;
            }
            return Some(ClientMessage::GetLogs { service });
        },
        None => {},
    }
    None
}

/// The character at `pos` is `c`.
fn pos_has(v: &Vec<char>, pos: usize, c: char) -> (r: bool)
{
    pos < v.len() && v[pos] == c
}

impl ClientMessage {
    /// Decode one frame. Every accepted frame is provably the canonical
    /// encoding of the returned message, by re-encoding and comparing.
    /// That a canonical encoding is never rejected is not stated here; it
    /// is exercised by the test suite over every message variant.
    pub fn from_json(s: &str) -> (r: Option<ClientMessage>)
        ensures
            r matches Some(m) ==> s@ == spec_client_json(m),
    {
        let chars = to_chars(s);
        let parsed = match parse_client(&chars) {
            Some(m) => m,
            None => {
                return None;
            },
        };
        let echo = parsed.to_json();
        if str_eq(echo.as_str(), s) {
            Some(parsed)
        } else {
            None
        }
    }
}

/// Parse one snapshot object.
fn parse_snapshot(v: &Vec<char>, pos: usize) -> (r: Option<(ServiceSnapshot, usize)>)
    ensures
        r matches Some(p) ==> pos < p.1 <= v@.len(),
{
    let p0 = match eat_lit(v, pos, "{\"status\":") {
        Some(x) => x,
        None => {
            return None;
        },
    };
    let (status, p1) = match parse_status(v, p0) {
        Some(x) => x,
        None => {
            return None;
        },
    };
    let p2 = match eat_lit(v, p1, ",\"pid\":") {
        Some(x) => x,
        None => {
            return None;
        },
    };
    let (pid, p3) = if pos_has(v, p2, 'n') {
        match eat_lit(v, p2, "null") {
            Some(x) => (None, x),
            None => {
                return None;
            },
        }
    } else {
        match parse_ju64(v, p2) {
            Some((n, x)) => {
                if n > u32::MAX as u64 {
                    return None;
                }
                (Some(n as u32), x)
            },
            None => {
                return None;
            },
        }
    };
    let p4 = match eat_lit(v, p3, ",\"uptime\":") {
        Some(x) => x,
        None => {
            return None;
        },
    };
    let (uptime, p5) = if pos_has(v, p4, 'n') {
        match eat_lit(v, p4, "null") {
            Some(x) => (None, x),
            None => {
                return None;
            },
        }
    } else {
        let q0 = match eat_lit(v, p4, "{\"secs\":") {
            Some(x) => x,
            None => {
                return None;
            },
        };
        let (secs, q1) = match parse_ju64(v, q0) {
            Some(x) => x,
            None => {
                return None;
            },
        };
        let q2 = match eat_lit(v, q1, ",\"nanos\":") {
            Some(x) => x,
            None => {
                return None;
            },
        };
        let (nanos, q3) = match parse_ju64(v, q2) {
            Some(x) => x,
            None => {
                return None;
            },
        };
        if nanos > u32::MAX as u64 {
            return None;
        }
        let q4 = match eat_lit(v, q3, "}") {
            Some(x) => x,
            None => {
                return None;
            },
        };
        (Some(DurationVal { secs, nanos: nanos as u32 }), q4)
    };
    let p6 = match eat_lit(v, p5, ",\"restart_count\":") {
        Some(x) => x,
        None => {
            return None;
        },
    };
    let (restart_count, p7) = match parse_ju64(v, p6) {
        Some((n, x)) => {
            if n > u32::MAX as u64 {
                return None;
            }
            (n as u32, x)
        },
        None => {
            return None;
        },
    };
    let p8 = match eat_lit(v, p7, ",\"last_error\":") {
        Some(x) => x,
        None => {
            return None;
        },
    };
    let (last_error, p9) = match parse_opt_string(v, p8) {
        Some(x) => x,
        None => {
            return None;
        },
    };
    let p10 = match eat_lit(v, p9, ",\"namespace\":") {
        Some(x) => x,
        None => {
            return None;
        },
    };
    let (namespace, p11) = match parse_jstring(v, p10) {
        Some(x) => x,
        None => {
            return None;
        },
    };
    let p12 = match eat_lit(v, p11, ",\"executor_type\":") {
        Some(x) => x,
        None => {
            return None;
        },
    };
    let (executor_type, p13) = match parse_jstring(v, p12) {
        Some(x) => x,
        None => {
            return None;
        },
    };
    let p14 = match eat_lit(v, p13, ",\"dependencies\":[") {
        Some(x) => x,
        None => {
            return None;
        },
    };
    let (dependencies, p15) = match parse_lines(v, p14) {
        Some(x) => x,
        None => {
            return None;
        },
    };
    let p16 = match eat_lit(v, p15, "],\"uses_gpu\":") {
        Some(x) => x,
        None => {
            return None;
        },
    };
    let (uses_gpu, p17) = if pos_has(v, p16, 't') {
        match eat_lit(v, p16, "true") {
            Some(x) => (true, x),
            None => {
                return None;
            },
        }
    } else {
        match eat_lit(v, p16, "false") {
            Some(x) => (false, x),
            None => {
                return None;
            },
        }
    };
    let p18 = match eat_lit(v, p17, ",\"critical\":") {
        Some(x) => x,
        None => {
            return None;
        },
    };
    let (critical, p19) = if pos_has(v, p18, 't') {
        match eat_lit(v, p18, "true") {
            Some(x) => (true, x),
            None => {
                return None;
            },
        }
    } else {
        match eat_lit(v, p18, "false") {
            Some(x) => (false, x),
            None => {
                return None;
            },
        }
    };
    let p20 = match eat_lit(v, p19, ",\"restart_policy\":") {
        Some(x) => x,
        None => {
            return None;
        },
    };
    let (restart_policy, p21) = match parse_jstring(v, p20) {
        Some(x) => x,
        None => {
            return None;
        },
    };
    let p22 = match eat_lit(v, p21, ",\"max_restarts\":") {
        Some(x) => x,
        None => {
            return None;
        },
    };
    let (max_restarts, p23) = match parse_ju64(v, p22) {
        Some((n, x)) => {
            if n > u32::MAX as u64 {
                return None;
            }
            (n as u32, x)
        },
        None => {
            return None;
        },
    };
    let p24 = match eat_lit(v, p23, "}") {
        Some(x) => x,
        None => {
            return None;
        },
    };
    if p24 <= pos {
        return None;
    }
    Some((
        ServiceSnapshot {
            status,
            pid,
            uptime,
            restart_count,
            last_error,
            namespace,
            executor_type,
            dependencies,
            uses_gpu,
            critical,
            restart_policy,
            max_restarts,
        },
        p24,
    ))
}

/// Parse the members of a name-to-snapshot object, up to its `}`.
fn parse_services(v: &Vec<char>, pos: usize) -> (r: Option<(
    Vec<(String, ServiceSnapshot)>,
    usize,
)>)
    ensures
        r matches Some(p) ==> pos <= p.1 <= v@.len(),
{
    if pos > v.len() {
        return None;
    }
    let mut out: Vec<(String, ServiceSnapshot)> = Vec::new();
    let mut i: usize = pos;
    if i < v.len() && v[i] == '}' {
        return Some((out, i));
    }
    loop
        invariant
            pos <= i <= v@.len(),
        decreases v@.len() - i,
    {
        let (k, p1) = match parse_jstring(v, i) {
            Some(x) => x,
            None => {
                return None;
            },
        };
        if p1 >= v.len() || v[p1] != ':' {
            return None;
        }
        let (snap, p2) = match parse_snapshot(v, p1 + 1) {
            Some(x) => x,
            None => {
                return None;
            },
        };
        out.push((k, snap));
        if p2 < v.len() && v[p2] == ',' {
            if p2 + 1 <= i {
                return None;
            }
            i = p2 + 1;
        } else {
            return Some((out, p2));
        }
    }
}

/// Parse the elements of a string array, up to its `]`.
fn parse_lines(v: &Vec<char>, pos: usize) -> (r: Option<(Vec<String>, usize)>)
    ensures
        r matches Some(p) ==> pos <= p.1 <= v@.len(),
{
    if pos > v.len() {
        return None;
    }
    let mut out: Vec<String> = Vec::new();
    let mut i: usize = pos;
    if i < v.len() && v[i] == ']' {
        return Some((out, i));
    }
    loop
        invariant
            pos <= i <= v@.len(),
        decreases v@.len() - i,
    {
        let (s, p1) = match parse_jstring(v, i) {
            Some(x) => x,
            None => {
                return None;
            },
        };
        out.push(s);
        if p1 < v.len() && v[p1] == ',' {
            if p1 + 1 <= i {
                return None;
            }
            i = p1 + 1;
        } else {
            return Some((out, p1));
        }
    }
}

/// Parse a server message in its canonical form, demanding the text end
/// with the message.
fn parse_server(v: &Vec<char>) -> (r: Option<ServerMessage>)
{
    match eat_lit(v, 0, "{\"type\":\"ack\",\"request_id\":") {
        Some(p0) => {
            let (request_id, p1) = match parse_opt_string(v, p0) {
                Some(x) => x,
                None => {
                    return None;
                },
            };
            let p2 = match eat_lit(v, p1, "}") {
                Some(x) => x,
                None => {
                    return None;
                },
            };
            if p2 != v.len() {
                return None;
            }
            return Some(ServerMessage::Ack { request_id });
        },
        None => {},
    }
    match eat_lit(v, 0, "{\"type\":\"error\",\"message\":") {
        Some(p0) => {
            let (message, p1) = match parse_jstring(v, p0) {
                Some(x) => x,
                None => {
                    return None;
                },
            };
            let p2 = match eat_lit(v, p1, ",\"code\":") {
                Some(x) => x,
                None => {
                    return None;
                },
            };
            let (code, p3) = if pos_has(v, p2, 'n') {
                match eat_lit(v, p2, "null") {
                    Some(x) => (None, x),
                    None => {
                        return None;
                    },
                }
            } else {
                match parse_ji32(v, p2) {
                    Some((c, x)) => (Some(c), x),
                    None => {
                        return None;
                    },
                }
            };
            let p4 = match eat_lit(v, p3, "}") {
                Some(x) => x,
                None => {
                    return None;
                },
            };
            if p4 != v.len() {
                return None;
            }
            return Some(ServerMessage::Error { message, code });
        },
        None => {},
    }
    match eat_lit(v, 0, "{\"type\":\"status_update\",\"service\":") {
        Some(p0) => {
            let (service, p1) = match parse_jstring(v, p0) {
                Some(x) => x,
                None => {
                    return None;
                },
            };
            let p2 = match eat_lit(v, p1, ",\"status\":") {
                Some(x) => x,
                None => {
                    return None;
                },
            };
            let (status, p3) = match parse_status(v, p2) {
                Some(x) => x,
                None => {
                    return None;
                },
            };
            let p4 = match eat_lit(v, p3, "}") {
                Some(x) => x,
                None => {
                    return None;
                },
            };
            if p4 != v.len() {
                return None;
            }
            return Some(ServerMessage::StatusUpdate { service, status });
        },
        None => {},
    }
    match eat_lit(v, 0, "{\"type\":\"log_line\",\"service\":") {
        Some(p0) => {
            let (service, p1) = match parse_jstring(v, p0) {
                Some(x) => x,
                None => {
                    return None;
                },
            };
            let p2 = match eat_lit(v, p1, ",\"line\":") {
                Some(x) => x,
                None => {
                    return None;
                },
            };
            let (line, p3) = match parse_jstring(v, p2) {
                Some(x) => x,
                None => {
                    return None;
                },
            };
            let p4 = match eat_lit(v, p3, "}") {
                Some(x) => x,
                None => {
                    return None;
                },
            };
            if p4 != v.len() {
                return None;
            }
            return Some(ServerMessage::LogLine { service, line });
        },
        None => {},
    }
    match eat_lit(v, 0, "{\"type\":\"snapshot\",\"services\":{") {
        Some(p0) => {
            let (services, p1) = match parse_services(v, p0) {
                Some(x) => x,
                None => {
                    return None;
                },
            };
            let p2 = match eat_lit(v, p1, "}}") {
                Some(x) => x,
                None => {
                    return None;
                },
            };
            if p2 != v.len() {
                return None;
            }
            return Some(ServerMessage::Snapshot { services });
        },
        None => {},
    }
    match eat_lit(v, 0, "{\"type\":\"log_history\",\"service\":") {
        Some(p0) => {
            let (service, p1) = match parse_opt_string(v, p0) {
                Some(x) => x,
                None => {
                    return None;
                },
            };
            let p2 = match eat_lit(v, p1, ",\"lines\":[") {
                Some(x) => x,
                None => {
                    return None;
                },
            };
            let (lines, p3) = match parse_lines(v, p2) {
                Some(x) => x,
                None => {
                    return None;
                },
            };
            let p4 = match eat_lit(v, p3, "]}") {
                Some(x) => x,
                None => {
                    return None;
                },
            };
            if p4 != v.len() {
                return None;
            }
            return Some(ServerMessage::LogHistory { service, lines });
        },
        None => {},
    }
    None
}

impl ServerMessage {
    /// Decode one frame. Every accepted frame is provably the canonical
    /// encoding of the returned message, by re-encoding and comparing.
    /// That a canonical encoding is never rejected is not stated here; it
    /// is exercised by the test suite over every message variant.
    pub fn from_json(s: &str) -> (r: Option<ServerMessage>)
        ensures
            r matches Some(m) ==> s@ == spec_server_json(m),
    {
        let chars = to_chars(s);
        let parsed = match parse_server(&chars) {
            Some(m) => m,
            None => {
                return None;
            },
        };
        let echo = parsed.to_json();
        if str_eq(echo.as_str(), s) {
            Some(parsed)
        } else {
            None
        }
    }
}

} // verus!
