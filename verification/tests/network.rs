use gensokio::scheduler::Fault;
use gensokio::network::{
    wait_for_players, DisconnectCause, PeerRole, SessionEvent, SessionManager, SessionPhase,
    SyncOffer, INPUT_DELAY,
};

fn offer(start_frame: u32, input_delay: u32) -> SyncOffer {
    SyncOffer { start_frame, input_delay }
}

fn running() -> SessionManager {
    let mut s = SessionManager::new();
    s.handle(SessionEvent::PeersChanged(2));
    s.handle(SessionEvent::Acknowledged { local: offer(0, 2), remote: offer(0, 2) });
    s
}

#[test]
fn a_session_starts_discovering() {
    let s = SessionManager::new();
    assert_eq!(s.phase, SessionPhase::Discovering);
    assert_eq!(s.cause, None);
    assert!(!s.is_running());
}

#[test]
fn discovery_ends_with_exactly_two_players() {
    for n in [0usize, 1, 3, 4] {
        let mut s = SessionManager::new();
        s.handle(SessionEvent::PeersChanged(n));
        assert_eq!(s.phase, SessionPhase::Discovering);
    }
    let mut s = SessionManager::new();
    s.handle(SessionEvent::PeersChanged(2));
    assert_eq!(s.phase, SessionPhase::Synchronizing);
    s.handle(SessionEvent::PeersChanged(2));
    assert_eq!(s.phase, SessionPhase::Synchronizing);
    s.handle(SessionEvent::PeersChanged(1));
    assert_eq!(s.phase, SessionPhase::Discovering);
    assert_eq!(s.cause, None);
}

#[test]
fn running_needs_agreement_on_both_values() {
    let mut s = SessionManager::new();
    s.handle(SessionEvent::Acknowledged { local: offer(0, 2), remote: offer(0, 2) });
    assert_eq!(s.phase, SessionPhase::Discovering);
    s.handle(SessionEvent::PeersChanged(2));
    s.handle(SessionEvent::Acknowledged { local: offer(0, 2), remote: offer(0, 3) });
    assert_eq!(s.phase, SessionPhase::Synchronizing);
    s.handle(SessionEvent::Acknowledged { local: offer(0, 2), remote: offer(1, 2) });
    assert_eq!(s.phase, SessionPhase::Synchronizing);
    s.handle(SessionEvent::Faulted(Fault::Overrun));
    assert_eq!(s.phase, SessionPhase::Synchronizing);
    s.handle(SessionEvent::Acknowledged { local: offer(5, 2), remote: offer(5, 2) });
    assert_eq!(s.phase, SessionPhase::Running);
    assert!(s.is_running());
    assert_eq!(s.cause, None);
}

#[test]
fn a_peer_lost_before_the_match_means_waiting_again() {
    let mut s = SessionManager::new();
    s.handle(SessionEvent::PeerLost);
    assert_eq!(s.phase, SessionPhase::Discovering);
    s.handle(SessionEvent::PeersChanged(2));
    s.handle(SessionEvent::PeerLost);
    assert_eq!(s.phase, SessionPhase::Discovering);
    assert_eq!(s.cause, None);
}

#[test]
fn a_running_match_ends_when_the_peer_is_lost() {
    let mut s = running();
    s.handle(SessionEvent::PeersChanged(2));
    s.handle(SessionEvent::PeersChanged(3));
    s.handle(SessionEvent::Acknowledged { local: offer(0, 2), remote: offer(9, 9) });
    assert_eq!(s.phase, SessionPhase::Running);
    s.handle(SessionEvent::PeersChanged(1));
    assert_eq!(s.phase, SessionPhase::Disconnected);
    assert_eq!(s.cause, Some(DisconnectCause::PeerLost));
    let mut t = running();
    t.handle(SessionEvent::PeerLost);
    assert_eq!(t.phase, SessionPhase::Disconnected);
    assert_eq!(t.cause, Some(DisconnectCause::PeerLost));
}

#[test]
fn a_running_match_ends_when_the_scheduler_stops() {
    let mut s = running();
    s.handle(SessionEvent::Faulted(Fault::Overrun));
    assert_eq!(s.phase, SessionPhase::Disconnected);
    assert_eq!(s.cause, Some(DisconnectCause::Fault(Fault::Overrun)));
    let mut t = running();
    t.handle(SessionEvent::Faulted(Fault::FrameLimit));
    assert_eq!(t.cause, Some(DisconnectCause::Fault(Fault::FrameLimit)));
}

#[test]
fn a_match_that_is_over_stays_over() {
    let mut s = running();
    s.handle(SessionEvent::Faulted(Fault::Overrun));
    let over = s;
    let events = [
        SessionEvent::PeersChanged(2),
        SessionEvent::PeersChanged(0),
        SessionEvent::Acknowledged { local: offer(0, 2), remote: offer(0, 2) },
        SessionEvent::PeerLost,
        SessionEvent::Faulted(Fault::FrameLimit),
    ];
    for event in events {
        s.handle(event);
        assert_eq!(s, over);
    }
}

#[test]
fn nothing_is_set_up_while_waiting() {
    let two = vec![PeerRole::Local, PeerRole::Remote(0)];
    assert!(wait_for_players(false, &two).is_none());
    assert!(wait_for_players(true, &Vec::new()).is_none());
    assert!(wait_for_players(true, &vec![PeerRole::Local]).is_none());
    let three = vec![PeerRole::Local, PeerRole::Remote(0), PeerRole::Remote(1)];
    assert!(wait_for_players(true, &three).is_none());
}

#[test]
fn players_get_handles_in_list_order() {
    assert_eq!(INPUT_DELAY, 2);
    let plan = wait_for_players(true, &vec![PeerRole::Remote(7), PeerRole::Local]).unwrap();
    let shown = format!("{:?}", plan.builder);
    assert!(shown.contains("0: Remote(7)"), "{shown}");
    assert!(shown.contains("1: Local"), "{shown}");
    assert!(shown.contains("num_players: 2"), "{shown}");
    assert!(shown.contains("input_delay: 2"), "{shown}");
    assert!(shown.contains("local_players: 1"), "{shown}");
    let other = wait_for_players(true, &vec![PeerRole::Local, PeerRole::Remote(3)]).unwrap();
    let shown = format!("{:?}", other.builder);
    assert!(shown.contains("0: Local"), "{shown}");
    assert!(shown.contains("1: Remote(3)"), "{shown}");
}

#[test]
fn a_plan_of_two_players_can_be_started() {
    let plan = wait_for_players(true, &vec![PeerRole::Local, PeerRole::Local]).unwrap();
    let session = plan.builder.start_synctest_session();
    assert!(session.is_ok());
    assert_eq!(session.unwrap().num_players(), 2);
}
