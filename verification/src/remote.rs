//! The decision logic around remote round-trips.
//!
//! The library does not run SSH itself.  A caller runs each remote command
//! and hands back a [`RemoteOutcome`]; the functions here say, for every
//! possible outcome, what the tool does next.  The container-address lookup
//! is a small state machine: one step resolves the container's first network
//! name, the next resolves its address on that network, and an empty answer
//! or a failed process ends the lookup with an error.

use vstd::prelude::*;
use vstd::string::*;
use crate::commands::{ip_query_command, ip_query_spec, network_query_command, network_query_spec};
use crate::errors::DevboxError;
use crate::registry::{set_spec, HostRegistry};
use crate::text::{container_names_from_output, trim_spec, trim_str, trimmed_lines};

verus! {

/// What one remote round-trip produced: whether the SSH process exited
/// successfully, and what it wrote on standard output.
pub struct RemoteOutcome {
    pub success: bool,
    pub stdout: String,
}

/// The progress of the two-step container-address lookup.
pub enum FetchIpState {
    /// The network-name query has not run yet.
    NeedNetwork,
    /// The network name is known; the address query has not run yet.
    NeedIp { network: String },
    /// The lookup finished with the container's address.
    Done { ip: String },
    /// The lookup failed; no further query is made.
    Failed { error: DevboxError },
}

impl FetchIpState {
    /// A terminal lookup needs no further remote round-trip.
    pub open spec fn is_terminal(self) -> bool {
        self is Done || self is Failed
    }
}

/// The initial state of a container-address lookup.
pub fn fetch_ip_start() -> (r: FetchIpState)
    ensures
        r is NeedNetwork,
{
    FetchIpState::NeedNetwork
}

/// The remote command to run next for this lookup, or `None` when the
/// lookup is over and no further query is made.
pub fn fetch_ip_query(state: &FetchIpState, container: &str) -> (r: Option<String>)
    ensures
        state is NeedNetwork ==> (r matches Some(c) && c@ == network_query_spec(container@)),
        state matches FetchIpState::NeedIp { network } ==> (r matches Some(c) && c@
            == ip_query_spec(container@, network@)),
        state.is_terminal() ==> r is None,
{
    match state {
        FetchIpState::NeedNetwork => Some(network_query_command(container)),
        FetchIpState::NeedIp { network } => Some(ip_query_command(container, network.as_str())),
        FetchIpState::Done { .. } => None,
        FetchIpState::Failed { .. } => None,
    }
}

/// Advances the lookup by the outcome of the query it was waiting for: a
/// failed process ends it with `RemoteCommandError`, an answer that is empty
/// after trimming ends it with `NotFound`, and otherwise the trimmed answer
/// is the network name (first step) or the finished address (second step).
pub fn fetch_ip_advance(state: FetchIpState, outcome: &RemoteOutcome) -> (next: FetchIpState)
    ensures
        state.is_terminal() ==> next == state,
        state is NeedNetwork && !outcome.success ==> (next matches FetchIpState::Failed { error }
            && error == DevboxError::RemoteCommandError),
        state is NeedNetwork && outcome.success && trim_spec(outcome.stdout@).len() == 0 ==> (next
            matches FetchIpState::Failed { error } && error == DevboxError::NotFound),
        state is NeedNetwork && outcome.success && trim_spec(outcome.stdout@).len() > 0 ==> (next
            matches FetchIpState::NeedIp { network } && network@ == trim_spec(outcome.stdout@)),
        state is NeedIp && !outcome.success ==> (next matches FetchIpState::Failed { error }
            && error == DevboxError::RemoteCommandError),
        state is NeedIp && outcome.success && trim_spec(outcome.stdout@).len() == 0 ==> (next
            matches FetchIpState::Failed { error } && error == DevboxError::NotFound),
        state is NeedIp && outcome.success && trim_spec(outcome.stdout@).len() > 0 ==> (next
            matches FetchIpState::Done { ip } && ip@ == trim_spec(outcome.stdout@)),
{
    match state {
        FetchIpState::NeedNetwork => {
            if !outcome.success {
                FetchIpState::Failed { error: DevboxError::RemoteCommandError }
            } else {
                let t = trim_str(outcome.stdout.as_str());
                if t.as_str().unicode_len() == 0 {
                    FetchIpState::Failed { error: DevboxError::NotFound }
                } else {
                    FetchIpState::NeedIp { network: t }
                }
            }
        },
        FetchIpState::NeedIp { .. } => {
            if !outcome.success {
                FetchIpState::Failed { error: DevboxError::RemoteCommandError }
            } else {
                let t = trim_str(outcome.stdout.as_str());
                if t.as_str().unicode_len() == 0 {
                    FetchIpState::Failed { error: DevboxError::NotFound }
                } else {
                    FetchIpState::Done { ip: t }
                }
            }
        },
        other => other,
    }
}

/// Applies the outcome of the remote container-listing command for `host`:
/// on success the host's registry entry is replaced wholesale by the trimmed
/// lines of the command's output, and on failure the registry is untouched
/// and the error is reported.
pub fn apply_container_listing(
    registry: &mut HostRegistry,
    host: String,
    outcome: &RemoteOutcome,
) -> (r: Result<(), DevboxError>)
    requires
        old(registry).wf(),
    ensures
        final(registry).wf(),
        !outcome.success ==> (r matches Err(e) && e == DevboxError::RemoteCommandError
            && *final(registry) == *old(registry)),
        outcome.success ==> r is Ok && final(registry)@ == set_spec(
            old(registry)@,
            host@,
            trimmed_lines(outcome.stdout@),
        ),
{
    if !outcome.success {
        return Err(DevboxError::RemoteCommandError);
    }
    let names = container_names_from_output(outcome.stdout.as_str());
    registry.set_containers(host, names);
    Ok(())
}

} // verus!
