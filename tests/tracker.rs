use ttymon::podman::ContainerInfo;
use ttymon::state::{Query, TerminalState};

fn info(name: &str) -> ContainerInfo {
    ContainerInfo {
        container_id: String::from("abc123"),
        container_name: String::from(name),
        image_id: String::from("img"),
        image_name: String::from("fedora"),
    }
}

#[test]
fn empty_chain_clears_outputs() {
    let mut state = TerminalState::new(5);
    assert_eq!(state.update(), Query::TtyProcessGroup(5));
    assert_eq!(state.on_tty_process_group(None), Query::Done);
    assert!(state.container_info().is_none());
    assert_eq!(state.foreground_argv0(), "");
    assert_eq!(state.foreground_cwd(), "");
}

#[test]
fn root_group_change_is_followed() {
    let mut state = TerminalState::new(5);
    state.update();
    assert_eq!(state.on_tty_process_group(Some(10)), Query::LeaderArgv0(10));
    assert_eq!(state.on_leader_argv0(Some(String::from("bash"))), Query::Foreground(10));
    state.on_foreground(Some(String::from("bash")), Some(String::from("/home/u")));
    assert_eq!(state.foreground_argv0(), "bash");
    assert_eq!(state.foreground_cwd(), "/home/u");

    assert_eq!(state.update(), Query::TtyProcessGroup(5));
    assert_eq!(state.on_tty_process_group(Some(11)), Query::LeaderArgv0(11));
    assert_eq!(state.on_leader_argv0(Some(String::from("vim"))), Query::Foreground(11));
    state.on_foreground(Some(String::from("vim")), None);
    assert_eq!(state.foreground_argv0(), "vim");
    assert_eq!(state.foreground_cwd(), "");
    assert_eq!(state.awaiting(), Query::Done);
}

#[test]
fn container_of_deepest_session_is_reported() {
    let mut state = TerminalState::new(5);
    state.update();
    state.on_tty_process_group(Some(10));
    let q = state.on_leader_argv0(Some(String::from("/home/otaylor/bin/toolbox")));
    assert_eq!(q, Query::ContainedPeer(10));
    assert_eq!(state.on_contained_peer(Some((20, Some(info("dev"))))), Query::TtyProcessGroup(20));
    assert_eq!(state.on_tty_process_group(Some(30)), Query::LeaderArgv0(30));
    assert_eq!(state.on_leader_argv0(Some(String::from("vim"))), Query::Foreground(30));
    state.on_foreground(Some(String::from("vim")), Some(String::from("/src")));
    assert_eq!(state.container_info().unwrap().container_name, "dev");
    assert_eq!(state.foreground_argv0(), "vim");
}

#[test]
fn inner_session_without_container_keeps_outer_one() {
    let mut state = TerminalState::new(5);
    state.update();
    state.on_tty_process_group(Some(10));
    state.on_leader_argv0(Some(String::from("/home/otaylor/bin/toolbox")));
    state.on_contained_peer(Some((20, Some(info("outer")))));
    state.on_tty_process_group(Some(30));
    state.on_leader_argv0(Some(String::from("/home/otaylor/bin/toolbox")));
    assert_eq!(state.on_contained_peer(Some((40, None))), Query::TtyProcessGroup(40));
    assert_eq!(state.on_tty_process_group(None), Query::Foreground(30));
    state.on_foreground(None, None);
    assert_eq!(state.container_info().unwrap().container_name, "outer");
}

#[test]
fn absent_supervisor_gives_no_container() {
    let mut state = TerminalState::new(5);
    state.update();
    state.on_tty_process_group(Some(10));
    state.on_leader_argv0(Some(String::from("/home/otaylor/bin/toolbox")));
    assert_eq!(state.on_contained_peer(None), Query::Foreground(10));
    state.on_foreground(Some(String::from("/home/otaylor/bin/toolbox")), None);
    assert!(state.container_info().is_none());
}

#[test]
fn configured_launcher_is_followed() {
    let mut state = TerminalState::new(5);
    state.set_launchers(vec![String::from("/usr/bin/toolbox")]);
    state.update();
    state.on_tty_process_group(Some(10));
    assert_eq!(
        state.on_leader_argv0(Some(String::from("/usr/bin/toolbox"))),
        Query::ContainedPeer(10)
    );
}

#[test]
fn describe_lists_sessions() {
    let mut state = TerminalState::new(5);
    assert_eq!(state.describe(), "TerminalState[ S-5 ]");
    state.update();
    state.on_tty_process_group(Some(10));
    state.on_leader_argv0(Some(String::from("/home/otaylor/bin/toolbox")));
    state.on_contained_peer(Some((20, None)));
    assert_eq!(state.describe(), "TerminalState[ S-5 S-20 ]");
}

#[test]
fn repeated_session_ends_the_walk() {
    let mut state = TerminalState::new(5);
    state.update();
    state.on_tty_process_group(Some(10));
    state.on_leader_argv0(Some(String::from("/home/otaylor/bin/toolbox")));
    assert_eq!(state.on_contained_peer(Some((20, None))), Query::TtyProcessGroup(20));
    state.on_tty_process_group(Some(10));
    state.on_leader_argv0(Some(String::from("/home/otaylor/bin/toolbox")));
    assert_eq!(state.on_contained_peer(Some((5, None))), Query::Foreground(10));
    assert_eq!(state.describe(), "TerminalState[ S-5 S-20 ]");
}
