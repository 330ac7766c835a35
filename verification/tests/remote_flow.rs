//! Tests of the remote-query decision logic and the built command lines.

use devbox::commands::{
    attach_command, forward_command, ip_query_command, list_command, network_query_command,
    report_line,
};
use devbox::errors::DevboxError;
use devbox::listing::render_listing;
use devbox::registry::HostRegistry;
use devbox::remote::{
    apply_container_listing, fetch_ip_advance, fetch_ip_query, fetch_ip_start, FetchIpState,
    RemoteOutcome,
};
use devbox::text::{container_names_from_output, trim_str};

fn ok(stdout: &str) -> RemoteOutcome {
    RemoteOutcome { success: true, stdout: stdout.to_string() }
}

fn failed() -> RemoteOutcome {
    RemoteOutcome { success: false, stdout: String::new() }
}

#[test]
fn trim_removes_surrounding_whitespace() {
    assert_eq!(trim_str("  x \t\n"), "x");
    assert_eq!(trim_str(""), "");
    assert_eq!(trim_str(" \r\n "), "");
    assert_eq!(trim_str("a b"), "a b");
}

#[test]
fn container_lines_are_trimmed_and_kept() {
    assert_eq!(container_names_from_output(""), Vec::<String>::new());
    assert_eq!(container_names_from_output("a\n"), vec!["a".to_string()]);
    assert_eq!(
        container_names_from_output(" a \r\nb"),
        vec!["a".to_string(), "b".to_string()]
    );
}

#[test]
fn init_stores_listing_lines_verbatim() {
    let mut reg = HostRegistry::new();
    let r = apply_container_listing(&mut reg, "hostA".to_string(), &ok("web\ndb\n\n"));
    assert!(r.is_ok());
    let got = reg.get(&"hostA".to_string()).expect("host must be stored");
    assert_eq!(
        got,
        &vec!["web".to_string(), "db".to_string(), String::new()]
    );
}

#[test]
fn init_failure_leaves_registry_alone() {
    let mut reg = HostRegistry::new();
    reg.set_containers("kept".to_string(), vec!["c".to_string()]);
    let r = apply_container_listing(&mut reg, "hostA".to_string(), &failed());
    assert_eq!(r.unwrap_err(), DevboxError::RemoteCommandError);
    assert_eq!(reg.entries.len(), 1);
    assert_eq!(reg.entries[0].host, "kept");
}

#[test]
fn empty_network_name_is_not_found_without_second_query() {
    let state = fetch_ip_start();
    let next = fetch_ip_advance(state, &ok(" \n"));
    match &next {
        FetchIpState::Failed { error } => assert_eq!(*error, DevboxError::NotFound),
        _ => panic!("an empty network name must end the lookup"),
    }
    assert!(fetch_ip_query(&next, "web").is_none());
}

#[test]
fn failed_network_query_is_remote_command_error() {
    let next = fetch_ip_advance(fetch_ip_start(), &failed());
    match next {
        FetchIpState::Failed { error } => assert_eq!(error, DevboxError::RemoteCommandError),
        _ => panic!("a failed process must end the lookup"),
    }
}

#[test]
fn empty_ip_is_not_found() {
    let state = fetch_ip_advance(fetch_ip_start(), &ok("bridge\n"));
    let next = fetch_ip_advance(state, &ok("\n"));
    match next {
        FetchIpState::Failed { error } => assert_eq!(error, DevboxError::NotFound),
        _ => panic!("an empty address must end the lookup"),
    }
}

#[test]
fn forward_command_is_built_exactly() {
    let state = fetch_ip_start();
    let q1 = fetch_ip_query(&state, "web").expect("first query must run");
    assert_eq!(
        q1,
        "docker inspect web | jq -r '.[0].NetworkSettings.Networks | keys[0]'"
    );
    let state = fetch_ip_advance(state, &ok("bridge\n"));
    match &state {
        FetchIpState::NeedIp { network } => assert_eq!(network, "bridge"),
        _ => panic!("a network name must advance the lookup"),
    }
    let q2 = fetch_ip_query(&state, "web").expect("second query must run");
    assert_eq!(
        q2,
        "docker inspect web | jq -r '.[0].NetworkSettings.Networks[\"bridge\"].IPAddress'"
    );
    let state = fetch_ip_advance(state, &ok("172.17.0.2\n"));
    let ip = match state {
        FetchIpState::Done { ip } => ip,
        _ => panic!("an address must finish the lookup"),
    };
    assert_eq!(
        forward_command("8080", ip.as_str(), "hostA"),
        "ssh -L 8080:172.17.0.2:8080 hostA -N"
    );
}

#[test]
fn attach_command_is_built_exactly() {
    assert_eq!(
        attach_command("hostA", "web"),
        "ssh hostA -t 'docker exec -it web bash -c \"tmux attach-session -t nvim || tmux new-session -s nvim\"'"
    );
}

#[test]
fn list_command_is_fixed() {
    assert_eq!(list_command(), "docker ps -a --format {{.Names}}");
    assert_eq!(
        network_query_command("db"),
        "docker inspect db | jq -r '.[0].NetworkSettings.Networks | keys[0]'"
    );
    assert_eq!(
        ip_query_command("db", "net0"),
        "docker inspect db | jq -r '.[0].NetworkSettings.Networks[\"net0\"].IPAddress'"
    );
}

#[test]
fn listing_of_empty_registry_is_header_only() {
    let reg = HostRegistry::new();
    assert_eq!(render_listing(&reg), "Stored containers by SSH name:\n");
}

#[test]
fn listing_shows_hosts_in_order() {
    let mut reg = HostRegistry::new();
    reg.set_containers(
        "hostA".to_string(),
        vec!["web".to_string(), "db".to_string()],
    );
    reg.set_containers("hostB".to_string(), Vec::new());
    assert_eq!(
        render_listing(&reg),
        "Stored containers by SSH name:\n- hostA: [\"web\", \"db\"]\n- hostB: []\n"
    );
}

#[test]
fn report_lines_match_outcome() {
    assert_eq!(
        report_line(true, "Neovim in container 'web'"),
        "Successfully executed Neovim in container 'web' command."
    );
    assert_eq!(
        report_line(false, "Port forwarding for container 'db'"),
        "Failed to execute Port forwarding for container 'db' command."
    );
}
