use alley::discovery::{
    multicast_address, DiscoveryState, IpAddress, MulticastMessage, ReceiveAction, ReceiveEvent,
    ReceiveLoop, ReceivePhase, RemoteTerminalInfo, SendAction, TerminalRegistry,
    MAX_RECEIVE_ATTEMPTS, MAX_REMOTE_TERMINALS, MULTICAST_PORT,
};

fn info(host: &str) -> RemoteTerminalInfo {
    RemoteTerminalInfo::local(
        host.to_string(),
        "Windows".to_string(),
        Some("Pro".to_string()),
        "10.0".to_string(),
    )
}

fn addr(last: u8) -> IpAddress {
    IpAddress::V4(192, 168, 1, last)
}

#[test]
fn multicast_group() {
    assert_eq!(multicast_address(), IpAddress::V4(226, 4, 55, 1));
    assert_eq!(MULTICAST_PORT, 55412);
}

#[test]
fn display_name_without_chosen_name() {
    assert_eq!(info("desk").display_name(), "desk-Windows".to_string());
}

#[test]
fn display_name_with_chosen_name() {
    let mut i = info("desk");
    i.name = Some("Alice's PC".to_string());
    assert_eq!(i.display_name(), "Alice's PC".to_string());
}

#[test]
fn local_announcement_has_no_name() {
    let i = info("box");
    assert!(i.name.is_none());
    assert_eq!(i.hostname, "box");
    assert_eq!(i.edition, Some("Pro".to_string()));
    assert_eq!(i.version, "10.0");
}

#[test]
fn registry_insert_and_lookup() {
    let mut r = TerminalRegistry::new();
    assert_eq!(r.len(), 0);
    assert!(!r.contains(addr(2)));
    r.insert(addr(2), info("a"));
    r.insert(addr(3), info("b"));
    assert!(r.contains(addr(2)));
    assert!(r.contains(addr(3)));
    assert!(!r.contains(IpAddress::V6(2)));
    assert_eq!(r.len(), 2);
    r.insert(addr(2), info("c"));
    assert_eq!(r.len(), 2);
}

#[test]
fn stop_broadcasting_is_observed() {
    let mut st = DiscoveryState::new();
    assert!(!st.should_stop_broadcasting());
    assert_eq!(st.next_send_action(), SendAction::Announce);
    st.stop_broadcasting();
    assert!(st.should_stop_broadcasting());
    assert_eq!(st.next_send_action(), SendAction::Stop);
}

#[test]
fn own_and_known_sources_are_ignored() {
    let mut st = DiscoveryState::new();
    let local = addr(1);
    assert!(st.is_ignored_source(local, local));
    assert!(!st.is_ignored_source(local, addr(9)));
    let m: MulticastMessage = st.register_announcement(addr(9), info("peer"));
    assert_eq!(m.name, "peer-Windows");
    assert_eq!(m.addr, addr(9));
    assert_eq!(m.os, "Windows");
    assert!(st.is_remote_terminal_known(addr(9)));
    assert!(st.is_ignored_source(local, addr(9)));
}

#[test]
fn count_reached_at_max_terminals() {
    let mut st = DiscoveryState::new();
    for i in 0..MAX_REMOTE_TERMINALS as u8 {
        assert!(!st.remote_terminals_count_reached());
        st.add_remote_terminal(addr(10 + i), info("t"));
    }
    assert!(st.remote_terminals_count_reached());
}

#[test]
fn receive_run_uses_all_attempts() {
    let mut st = DiscoveryState::new();
    let mut run = ReceiveLoop::new();
    assert_eq!(run.step(&mut st), ReceiveAction::Report(ReceiveEvent::Start));
    for _ in 0..MAX_RECEIVE_ATTEMPTS {
        assert_eq!(run.step(&mut st), ReceiveAction::Listen);
    }
    assert_eq!(run.current_phase(), ReceivePhase::Listening(MAX_RECEIVE_ATTEMPTS));
    assert_eq!(run.step(&mut st), ReceiveAction::Report(ReceiveEvent::End));
    assert_eq!(run.step(&mut st), ReceiveAction::Done);
    // Using up the attempts leaves the stop flag alone.
    assert!(!st.should_stop_broadcasting());
}

#[test]
fn receive_run_ends_on_stop() {
    let mut st = DiscoveryState::new();
    let mut run = ReceiveLoop::new();
    assert_eq!(run.step(&mut st), ReceiveAction::Report(ReceiveEvent::Start));
    assert_eq!(run.step(&mut st), ReceiveAction::Listen);
    st.stop_broadcasting();
    assert_eq!(run.step(&mut st), ReceiveAction::Report(ReceiveEvent::End));
    assert_eq!(run.current_phase(), ReceivePhase::Finished);
}

#[test]
fn receive_run_stops_broadcasting_when_enough_found() {
    let mut st = DiscoveryState::new();
    let mut run = ReceiveLoop::new();
    assert_eq!(run.step(&mut st), ReceiveAction::Report(ReceiveEvent::Start));
    for i in 0..MAX_REMOTE_TERMINALS as u8 {
        assert_eq!(run.step(&mut st), ReceiveAction::Listen);
        st.register_announcement(addr(20 + i), info("t"));
    }
    assert_eq!(run.step(&mut st), ReceiveAction::Report(ReceiveEvent::End));
    assert!(st.should_stop_broadcasting());
    assert_eq!(st.next_send_action(), SendAction::Stop);
}

#[test]
fn scan_never_registers_more_than_max() {
    let mut st = DiscoveryState::new();
    let mut run = ReceiveLoop::new();
    let mut next = 0u8;
    loop {
        match run.step(&mut st) {
            ReceiveAction::Listen => {
                let source = addr(100 + next);
                next += 1;
                if !st.is_ignored_source(addr(1), source) {
                    st.register_announcement(source, info("t"));
                }
                assert!(st.terminals.len() <= MAX_REMOTE_TERMINALS);
            }
            ReceiveAction::Report(_) => {}
            ReceiveAction::Done => break,
        }
    }
    assert_eq!(st.terminals.len(), MAX_REMOTE_TERMINALS);
}

#[test]
fn known_terminal_keeps_first_announcement() {
    let mut st = DiscoveryState::new();
    let local = addr(1);
    let first = st.register_announcement(addr(7), info("first"));
    assert_eq!(first.name, "first-Windows");
    // A second announcement from the same source is dropped before it is read.
    assert!(st.is_ignored_source(local, addr(7)));
    assert_eq!(st.terminals.len(), 1);
}
