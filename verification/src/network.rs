//! The session with the remote peer: from waiting for it to the end of the
//! match.

use crate::scheduler::Fault;
use crate::player::PLAYER_COUNT;
use bevy_ggrs::GgrsConfig;
use ggrs::{GgrsError, PlayerType, SessionBuilder};
use vstd::prelude::*;

verus! {

/// Frames between capturing a local input and applying it.
pub const INPUT_DELAY: usize = 2;

/// Where a match stands.
#[derive(Clone, Copy, Debug, PartialEq, Eq, Structural)]
pub enum SessionPhase {
    /// Waiting until exactly the players of a match are reachable.
    Discovering,
    /// Handles are assigned; the peers still have to agree on the first frame
    /// and the input delay.
    Synchronizing,
    /// The scheduler ticks.
    Running,
    /// The match is over. Nothing leads out of this phase.
    Disconnected,
}

/// Why a match ended.
#[derive(Clone, Copy, Debug, PartialEq, Eq, Structural)]
pub enum DisconnectCause {
    /// The remote peer became unreachable while the match ran.
    PeerLost,
    /// The scheduler stopped.
    Fault(Fault),
}

/// What a peer proposes to start with.
#[derive(Clone, Copy, Debug, PartialEq, Eq, Structural)]
pub struct SyncOffer {
    pub start_frame: u32,
    pub input_delay: u32,
}

/// What can happen to a session.
#[derive(Clone, Copy, Debug, PartialEq, Eq, Structural)]
pub enum SessionEvent {
    /// The transport reports this many reachable players, the local one
    /// included.
    PeersChanged(usize),
    /// Both offers are on the table: the local one and what the remote peer
    /// acknowledged.
    Acknowledged { local: SyncOffer, remote: SyncOffer },
    /// The transport reports that the remote peer is gone for good.
    PeerLost,
    /// The scheduler stopped.
    Faulted(Fault),
}

/// A session: its phase and, once it is over, the reason.
#[derive(Clone, Copy, Debug, PartialEq, Eq, Structural)]
pub struct SessionManager {
    pub phase: SessionPhase,
    pub cause: Option<DisconnectCause>,
}

/// The session after an event.
///
/// Before a match runs, the session waits: it synchronizes while exactly the
/// players of a match are reachable, and starts to run once both offers agree.
/// A running match ends when the peer is lost or too few players remain, and
/// when the scheduler stops. A match that is over stays over.
pub open spec fn spec_after(session: SessionManager, event: SessionEvent) -> SessionManager {
    let over = |cause: DisconnectCause|
        SessionManager { phase: SessionPhase::Disconnected, cause: Some(cause) };
    let at = |phase: SessionPhase| SessionManager { phase, cause: session.cause };
    match session.phase {
        SessionPhase::Disconnected => session,
        SessionPhase::Discovering => match event {
            SessionEvent::PeersChanged(n) => if n == PLAYER_COUNT {
                at(SessionPhase::Synchronizing)
            } else {
                session
            },
            _ => session,
        },
        SessionPhase::Synchronizing => match event {
            SessionEvent::PeersChanged(n) => if n == PLAYER_COUNT {
                session
            } else {
                at(SessionPhase::Discovering)
            },
            SessionEvent::Acknowledged { local, remote } => if local == remote {
                at(SessionPhase::Running)
            } else {
                session
            },
            SessionEvent::PeerLost => at(SessionPhase::Discovering),
            SessionEvent::Faulted(_) => session,
        },
        SessionPhase::Running => match event {
            SessionEvent::PeersChanged(n) => if n < PLAYER_COUNT {
                over(DisconnectCause::PeerLost)
            } else {
                session
            },
            SessionEvent::Acknowledged { .. } => session,
            SessionEvent::PeerLost => over(DisconnectCause::PeerLost),
            SessionEvent::Faulted(fault) => over(DisconnectCause::Fault(fault)),
        },
    }
}

impl SessionManager {
    /// A session carries a cause exactly when it is over.
    pub open spec fn wf(self) -> bool {
        self.cause is Some <==> self.phase == SessionPhase::Disconnected
    }

    /// A session that waits for its peer.
    pub fn new() -> (session: SessionManager)
        ensures
            session.phase == SessionPhase::Discovering,
            session.cause is None,
            session.wf(),
    {
        SessionManager { phase: SessionPhase::Discovering, cause: None }
    }

    /// Whether the scheduler is to tick.
    pub fn is_running(&self) -> (running: bool)
        ensures
            running == (self.phase == SessionPhase::Running),
    {
        match self.phase {
            SessionPhase::Running => true,
            _ => false,
        }
    }

    /// Takes an event in.
    pub fn handle(&mut self, event: SessionEvent)
        ensures
            *final(self) == spec_after(*old(self), event),
            old(self).wf() ==> final(self).wf(),
    {
        match self.phase {
            SessionPhase::Disconnected => {},
            SessionPhase::Discovering => match event {
                SessionEvent::PeersChanged(n) => {
                    if n == PLAYER_COUNT {
                        self.phase = SessionPhase::Synchronizing;
                    }
                },
                _ => {},
            },
            SessionPhase::Synchronizing => match event {
                SessionEvent::PeersChanged(n) => {
                    if n != PLAYER_COUNT {
                        self.phase = SessionPhase::Discovering;
                    }
                },
                SessionEvent::Acknowledged { local, remote } => {
                    if local.start_frame == remote.start_frame && local.input_delay
                        == remote.input_delay {
                        self.phase = SessionPhase::Running;
                    }
                },
                SessionEvent::PeerLost => {
                    self.phase = SessionPhase::Discovering;
                },
                SessionEvent::Faulted(_) => {},
            },
            SessionPhase::Running => match event {
                SessionEvent::PeersChanged(n) => {
                    if n < PLAYER_COUNT {
                        self.phase = SessionPhase::Disconnected;
                        self.cause = Some(DisconnectCause::PeerLost);
                    }
                },
                SessionEvent::Acknowledged { .. } => {},
                SessionEvent::PeerLost => {
                    self.phase = SessionPhase::Disconnected;
                    self.cause = Some(DisconnectCause::PeerLost);
                },
                SessionEvent::Faulted(fault) => {
                    self.phase = SessionPhase::Disconnected;
                    self.cause = Some(DisconnectCause::Fault(fault));
                },
            },
        }
    }
}

/// A match that is over stays over, with its cause, whatever happens.
pub proof fn lemma_disconnected_is_terminal(session: SessionManager, event: SessionEvent)
    requires
        session.phase == SessionPhase::Disconnected,
    ensures
        spec_after(session, event) == session,
{
}

/// A running match never goes back to waiting: it runs on or it is over.
pub proof fn lemma_running_never_waits(session: SessionManager, event: SessionEvent)
    requires
        session.phase == SessionPhase::Running,
    ensures
        spec_after(session, event).phase == SessionPhase::Running || spec_after(
            session,
            event,
        ).phase == SessionPhase::Disconnected,
{
}

/// A player as the transport reports it: the one on this machine, or a remote
/// one, named by its place among the transport's peers.
#[derive(Clone, Copy, Debug, PartialEq, Eq, Structural)]
pub enum PeerRole {
    Local,
    Remote(usize),
}

/// The peer that a role stands for: none for the local player.
pub open spec fn spec_peer(role: PeerRole) -> Option<usize> {
    match role {
        PeerRole::Local => None,
        PeerRole::Remote(peer) => Some(peer),
    }
}

/// A session that is set up and not yet started: a `ggrs::SessionBuilder`
/// whose inputs are single bytes and whose peers are named by their place
/// among the transport's peers. Its inside is not visible to proofs.
#[verifier::external_body]
pub struct SessionPlan {
    pub builder: SessionBuilder<GgrsConfig<u8, usize>>,
}

/// `ggrs::GgrsError`, what the session builder fails with.
#[verifier::external_type_specification]
#[verifier::external_body]
pub struct ExGgrsError(GgrsError);

/// The players registered in a plan: under each handle the peer that plays
/// it, none for the local player.
pub uninterp spec fn plan_players(plan: SessionPlan) -> Map<usize, Option<usize>>;

/// The number of players that a plan is set up for.
pub uninterp spec fn plan_num_players(plan: SessionPlan) -> usize;

/// The input delay of a plan.
pub uninterp spec fn plan_input_delay(plan: SessionPlan) -> usize;

/// Calls `SessionBuilder::new`. Trusted: the new builder has no player
/// registered and is set up for two players without input delay.
#[verifier::external_body]
fn plan_new() -> (plan: SessionPlan)
    ensures
        plan_players(plan) =~= Map::empty(),
        plan_num_players(plan) == 2,
        plan_input_delay(plan) == 0,
{
    SessionPlan { builder: SessionBuilder::new() }
}

/// Calls `SessionBuilder::with_num_players`. Trusted: only the number of
/// players changes.
#[verifier::external_body]
fn plan_with_num_players(plan: SessionPlan, num_players: usize) -> (next: SessionPlan)
    ensures
        plan_num_players(next) == num_players,
        plan_players(next) == plan_players(plan),
        plan_input_delay(next) == plan_input_delay(plan),
{
    SessionPlan { builder: plan.builder.with_num_players(num_players) }
}

/// Calls `SessionBuilder::with_input_delay`. Trusted: only the input delay
/// changes.
#[verifier::external_body]
fn plan_with_input_delay(plan: SessionPlan, delay: usize) -> (next: SessionPlan)
    ensures
        plan_input_delay(next) == delay,
        plan_players(next) == plan_players(plan),
        plan_num_players(next) == plan_num_players(plan),
{
    SessionPlan { builder: plan.builder.with_input_delay(delay) }
}

/// Calls `SessionBuilder::add_player` with a local or a remote player.
/// Trusted: the call succeeds exactly when the handle is not yet taken and is
/// below the number of players; then the player is registered under the handle
/// and nothing else changes.
#[verifier::external_body]
fn plan_add_player(plan: SessionPlan, role: PeerRole, handle: usize) -> (added: Result<
    SessionPlan,
    GgrsError,
>)
    ensures
        added is Ok <==> (!plan_players(plan).dom().contains(handle) && handle < plan_num_players(
            plan,
        )),
        added is Ok ==> plan_players(added->Ok_0) == plan_players(plan).insert(
            handle,
            spec_peer(role),
        ),
        added is Ok ==> plan_num_players(added->Ok_0) == plan_num_players(plan),
        added is Ok ==> plan_input_delay(added->Ok_0) == plan_input_delay(plan),
{
    let player = match role {
        PeerRole::Local => PlayerType::Local,
        PeerRole::Remote(peer) => PlayerType::Remote(peer),
    };
    plan.builder.add_player(player, handle).map(|builder| SessionPlan { builder })
}

/// The registry in which each player has the handle of its place in the list.
pub open spec fn spec_assigned(players: Seq<PeerRole>) -> Map<usize, Option<usize>> {
    Map::new(|h: usize| h < players.len(), |h: usize| spec_peer(players[h as int]))
}

/// Decides whether the match can be set up, and sets it up.
///
/// Nothing happens while the channel to the peer is not open, or while the
/// transport does not report exactly the players of a match. Otherwise the
/// players get their handles in the order in which the transport lists them,
/// and the plan is made for that many players with the agreed input delay. What
/// is left to the caller is to start the session on the channel.
pub fn wait_for_players(channel_open: bool, players: &Vec<PeerRole>) -> (plan: Option<SessionPlan>)
    ensures
        plan is Some <==> channel_open && players.len() == PLAYER_COUNT,
        plan matches Some(p) ==> {
            &&& plan_players(p) == spec_assigned(players@)
            &&& plan_num_players(p) == PLAYER_COUNT
            &&& plan_input_delay(p) == INPUT_DELAY
        },
{
    if !channel_open {
        return None;
    }
    if players.len() != PLAYER_COUNT {
        return None;
    }
    let mut plan = plan_with_input_delay(plan_with_num_players(plan_new(), PLAYER_COUNT), INPUT_DELAY);
    let mut i: usize = 0;
    assert(plan_players(plan) =~= spec_assigned(players@.take(0)));
    while i < players.len()
        invariant
            i <= players.len(),
            players.len() == PLAYER_COUNT,
            plan_players(plan) == spec_assigned(players@.take(i as int)),
            plan_num_players(plan) == PLAYER_COUNT,
            plan_input_delay(plan) == INPUT_DELAY,
        decreases players.len() - i,
    {
        match plan_add_player(plan, players[i], i) {
            Ok(next) => {
                assert(plan_players(next) =~= spec_assigned(players@.take(i + 1)));
                plan = next;
            },
            Err(_) => {
                return None;
            },
        }
        i += 1;
    }
    assert(players@.take(i as int) =~= players@);
    Some(plan)
}

} // verus!
