//! Builders for the fixed shell command templates the tool issues.
//!
//! Host, container and port values are interpolated verbatim, without
//! escaping: callers that rely on shell expansion inside these fields see
//! them passed through unchanged.

use vstd::prelude::*;
use vstd::string::*;

verus! {

/// The local command that opens an interactive SSH session and attaches (or
/// creates) the multiplexer session inside `container` on `host`.
pub open spec fn attach_command_spec(host: Seq<char>, container: Seq<char>) -> Seq<char> {
    "ssh "@ + host + " -t 'docker exec -it "@ + container
        + " bash -c \"tmux attach-session -t nvim || tmux new-session -s nvim\"'"@
}

/// The local command that forwards local port `port` to the same port on
/// `ip`, tunnelled through `host`, with no remote command run.
pub open spec fn forward_command_spec(port: Seq<char>, ip: Seq<char>, host: Seq<char>) -> Seq<
    char,
> {
    "ssh -L "@ + port + ":"@ + ip + ":"@ + port + " "@ + host + " -N"@
}

/// The remote command that lists all containers, running or stopped, one
/// name per line.
pub open spec fn list_command_spec() -> Seq<char> {
    "docker ps -a --format {{.Names}}"@
}

/// The remote command that prints the first network name of `container`.
pub open spec fn network_query_spec(container: Seq<char>) -> Seq<char> {
    "docker inspect "@ + container
        + " | jq -r '.[0].NetworkSettings.Networks | keys[0]'"@
}

/// The remote command that prints the address of `container` on `network`.
pub open spec fn ip_query_spec(container: Seq<char>, network: Seq<char>) -> Seq<char> {
    "docker inspect "@ + container + " | jq -r '.[0].NetworkSettings.Networks[\""@ + network
        + "\"].IPAddress'"@
}

/// Builds the interactive attach command for `container` on `host`.
pub fn attach_command(host: &str, container: &str) -> (r: String)
    ensures
        r@ == attach_command_spec(host@, container@),
{
    let mut r = String::from_str("ssh ");
    r.append(host);
    r.append(" -t 'docker exec -it ");
    r.append(container);
    r.append(" bash -c \"tmux attach-session -t nvim || tmux new-session -s nvim\"'");
    proof {
        assert(r@ =~= attach_command_spec(host@, container@));
    }
    r
}

/// Builds the port-forwarding command for `port` to `ip` through `host`.
pub fn forward_command(port: &str, ip: &str, host: &str) -> (r: String)
    ensures
        r@ == forward_command_spec(port@, ip@, host@),
{
    let mut r = String::from_str("ssh -L ");
    r.append(port);
    r.append(":");
    r.append(ip);
    r.append(":");
    r.append(port);
    r.append(" ");
    r.append(host);
    r.append(" -N");
    proof {
        assert(r@ =~= forward_command_spec(port@, ip@, host@));
    }
    r
}

/// Builds the remote container-listing command.
pub fn list_command() -> (r: String)
    ensures
        r@ == list_command_spec(),
{
    String::from_str("docker ps -a --format {{.Names}}")
}

/// Builds the remote network-name query for `container`.
pub fn network_query_command(container: &str) -> (r: String)
    ensures
        r@ == network_query_spec(container@),
{
    let mut r = String::from_str("docker inspect ");
    r.append(container);
    r.append(" | jq -r '.[0].NetworkSettings.Networks | keys[0]'");
    proof {
        assert(r@ =~= network_query_spec(container@));
    }
    r
}

/// Builds the remote address query for `container` on `network`.
pub fn ip_query_command(container: &str, network: &str) -> (r: String)
    ensures
        r@ == ip_query_spec(container@, network@),
{
    let mut r = String::from_str("docker inspect ");
    r.append(container);
    r.append(" | jq -r '.[0].NetworkSettings.Networks[\"");
    r.append(network);
    r.append("\"].IPAddress'");
    proof {
        assert(r@ =~= ip_query_spec(container@, network@));
    }
    r
}

/// The line reported after running a built command, depending on whether the
/// child process succeeded.
pub open spec fn report_line_spec(success: bool, context: Seq<char>) -> Seq<char> {
    if success {
        "Successfully executed "@ + context + " command."@
    } else {
        "Failed to execute "@ + context + " command."@
    }
}

/// Builds the line reported after a built command ran.
pub fn report_line(success: bool, context: &str) -> (r: String)
    ensures
        r@ == report_line_spec(success, context@),
{
    let mut r = if success {
        String::from_str("Successfully executed ")
    } else {
        String::from_str("Failed to execute ")
    };
    r.append(context);
    r.append(" command.");
    proof {
        assert(r@ =~= report_line_spec(success, context@));
    }
    r
}

} // verus!
