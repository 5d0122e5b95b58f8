//! The `ssh` command that carries a tunnel, and the recognition of a tunnel
//! process left over from an earlier run.
use vstd::prelude::*;

use crate::config::{ConnectionConfig, ConnectionConfigView};
use crate::text::{contains, contains_str, decimal, push_decimal, views};

verus! {

/// The `-L` argument: `{local_port}:{remote_host}:{remote_port}`.
pub open spec fn forward_text(c: ConnectionConfigView) -> Seq<char> {
    decimal(c.local_port as nat) + ":"@ + c.remote_host + ":"@ + decimal(c.remote_port as nat)
}

/// The `-L` argument of a connection's tunnel.
pub fn forward_spec(connection: &ConnectionConfig) -> (res: String)
    ensures
        res@ == forward_text(connection@),
{
    let mut s = String::new();
    push_decimal(&mut s, connection.local_port as u64);
    s.append(":");
    s.append(connection.remote_host.as_str());
    s.append(":");
    push_decimal(&mut s, connection.remote_port as u64);
    s
}

/// The arguments given to `ssh`: no remote command, give up when the
/// forward cannot be set up, keep-alives every 30 seconds with 3 misses
/// tolerated, the forward, and the host.
pub open spec fn ssh_argument_texts(c: ConnectionConfigView) -> Seq<Seq<char>> {
    seq![
        "-N"@,
        "-o"@,
        "ExitOnForwardFailure=yes"@,
        "-o"@,
        "ServerAliveInterval=30"@,
        "-o"@,
        "ServerAliveCountMax=3"@,
        "-L"@,
        forward_text(c),
        c.ssh_host,
    ]
}

/// The arguments with which `ssh` is run for a connection.
pub fn ssh_arguments(connection: &ConnectionConfig) -> (res: Vec<String>)
    ensures
        views(res@) == ssh_argument_texts(connection@),
{
    let mut out: Vec<String> = Vec::new();
    out.push(String::from_str("-N"));
    out.push(String::from_str("-o"));
    out.push(String::from_str("ExitOnForwardFailure=yes"));
    out.push(String::from_str("-o"));
    out.push(String::from_str("ServerAliveInterval=30"));
    out.push(String::from_str("-o"));
    out.push(String::from_str("ServerAliveCountMax=3"));
    out.push(String::from_str("-L"));
    out.push(forward_spec(connection));
    out.push(connection.ssh_host.clone());
    assert(views(out@) =~= ssh_argument_texts(connection@));
    out
}

/// A process command line is the tunnel of this connection: it names the
/// `ssh` binary, `-N`, `ExitOnForwardFailure=yes`, `-L` with the forward, and
/// the host.
pub open spec fn tunnel_command(
    command_line: Seq<char>,
    ssh_bin: Seq<char>,
    forward: Seq<char>,
    c: ConnectionConfigView,
) -> bool {
    &&& command_line.len() > 0
    &&& contains(command_line, ssh_bin)
    &&& contains(command_line, "-N"@)
    &&& contains(command_line, "ExitOnForwardFailure=yes"@)
    &&& contains(command_line, "-L "@ + forward)
    &&& contains(command_line, c.ssh_host)
}

/// Whether the process with this command line is a tunnel for `connection`
/// (one left by an earlier run, to be terminated before a new start).
pub fn matches_connection_process(
    command_line: &str,
    ssh_bin: &str,
    forward_spec: &str,
    connection: &ConnectionConfig,
) -> (res: bool)
    ensures
        res == tunnel_command(command_line@, ssh_bin@, forward_spec@, connection@),
{
    if command_line.unicode_len() == 0 {
        return false;
    }
    let mut dash_l = String::from_str("-L ");
    dash_l.append(forward_spec);
    contains_str(command_line, ssh_bin) && contains_str(command_line, "-N") && contains_str(
        command_line,
        "ExitOnForwardFailure=yes",
    ) && contains_str(command_line, dash_l.as_str()) && contains_str(
        command_line,
        connection.ssh_host.as_str(),
    )
}

} // verus!
