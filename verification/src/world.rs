//! The simulated world and its fixed-step transition.
//!
//! A step takes the state and one intent per handle, and nothing else: no
//! clock, no order of arrival, no fractional number. Time is whole
//! nanoseconds and advances by the agreed length of a frame.

use crate::bullet::{
    bullet_handling, shoot_bullet, spec_bullets_advanced, spec_rise, spec_shot, spec_spawned,
    Bullet,
};
use crate::input::InputIntent;
use crate::player::{
    confine_player, player_movement, spawn_player, spec_all_confined, spec_all_moved,
    spec_new_player, Player, PLAYER_COUNT,
};
use crate::viewport::Viewport;
use vstd::prelude::*;

verus! {

/// Everything that the course of a match depends on.
#[derive(Clone, Debug, PartialEq, Eq)]
pub struct SimulationState {
    pub players: Vec<Player>,
    pub bullets: Vec<Bullet>,
}

/// The mathematical content of a `SimulationState`.
#[verifier::ext_equal]
pub struct SimulationModel {
    pub players: Seq<Player>,
    pub bullets: Seq<Bullet>,
}

impl View for SimulationState {
    type V = SimulationModel;

    open spec fn view(&self) -> SimulationModel {
        SimulationModel { players: self.players@, bullets: self.bullets@ }
    }
}

impl SimulationModel {
    /// A state fits a match of `n` handles when every player is steered by one
    /// of them and can shoot.
    pub open spec fn wf(self, n: nat) -> bool {
        forall|i: int|
            0 <= i < self.players.len() ==> (#[trigger] self.players[i]).handle < n
                && self.players[i].attack_speed > 0
    }
}

/// What both peers agree on before a match: the visible rectangle and the
/// length of a frame.
#[derive(Clone, Copy, Debug, PartialEq, Eq, Structural)]
pub struct SimConfig {
    pub viewport: Viewport,
    pub frame_ns: u64,
}

impl SimConfig {
    pub open spec fn wf(self) -> bool {
        self.viewport.wf()
    }
}

/// Every player after the shooting phase of a frame.
pub open spec fn spec_all_shot(players: Seq<Player>, inputs: Seq<InputIntent>, delta_ns: u64) -> Seq<
    Player,
> {
    Seq::new(
        players.len(),
        |i: int| spec_shot(players[i], inputs[players[i].handle as int].fire, delta_ns),
    )
}

/// The bullets that the first `k` players add in a frame, in player order.
pub open spec fn spec_salvo(players: Seq<Player>, inputs: Seq<InputIntent>, delta_ns: u64, k: nat) -> Seq<
    Bullet,
>
    decreases k,
{
    if k == 0 {
        Seq::empty()
    } else {
        let p = players[k - 1];
        spec_salvo(players, inputs, delta_ns, (k - 1) as nat) + spec_spawned(
            p,
            inputs[p.handle as int].fire,
            delta_ns,
        )
    }
}

/// One frame of the simulation. Players move and are confined to the viewport;
/// bullets in flight rise and those past the top edge vanish; then each player
/// in turn runs its cooldown and may add its two bullets behind the others.
/// Nothing but the state, the inputs and the agreed configuration enters.
pub open spec fn spec_step(s: SimulationModel, inputs: Seq<InputIntent>, config: SimConfig) -> SimulationModel {
    let confined = spec_all_confined(spec_all_moved(s.players, inputs, false), config.viewport);
    let flying = spec_bullets_advanced(s.bullets, config.viewport.top, spec_rise(config.frame_ns));
    SimulationModel {
        players: spec_all_shot(confined, inputs, config.frame_ns),
        bullets: flying + spec_salvo(confined, inputs, config.frame_ns, confined.len()),
    }
}

/// The state reached from `start` by one step per entry of `inputs`, in order.
pub open spec fn spec_replay(
    start: SimulationModel,
    inputs: Seq<Seq<InputIntent>>,
    config: SimConfig,
) -> SimulationModel
    decreases inputs.len(),
{
    if inputs.len() == 0 {
        start
    } else {
        spec_step(spec_replay(start, inputs.drop_last(), config), inputs.last(), config)
    }
}

/// The per-frame inputs held in nested vectors, as sequences.
pub open spec fn spec_frames(inputs: Seq<Vec<InputIntent>>) -> Seq<Seq<InputIntent>> {
    inputs.map_values(|frame: Vec<InputIntent>| frame@)
}

fn copy_of<T: Copy>(items: &Vec<T>) -> (copy: Vec<T>)
    ensures
        copy@ == items@,
{
    let mut copy: Vec<T> = Vec::new();
    let mut i: usize = 0;
    while i < items.len()
        invariant
            i <= items.len(),
            copy@ == items@.take(i as int),
        decreases items.len() - i,
    {
        copy.push(items[i]);
        assert(items@.take(i + 1) =~= items@.take(i as int).push(items[i as int]));
        i += 1;
    }
    assert(items@.take(i as int) =~= items@);
    copy
}

impl SimulationState {
    /// The state at the start of a match: the two players, no bullets.
    pub fn new() -> (state: SimulationState)
        ensures
            state@.players == seq![spec_new_player(0), spec_new_player(1)],
            state@.bullets == Seq::<Bullet>::empty(),
            state@.wf(PLAYER_COUNT as nat),
    {
        SimulationState { players: spawn_player(), bullets: Vec::new() }
    }

    /// Whether the state fits a match of `n` handles.
    pub fn fits(&self, n: usize) -> (ok: bool)
        ensures
            ok == self@.wf(n as nat),
    {
        let mut i: usize = 0;
        while i < self.players.len()
            invariant
                i <= self.players.len(),
                forall|j: int|
                    0 <= j < i ==> (#[trigger] self@.players[j]).handle < n
                        && self@.players[j].attack_speed > 0,
            decreases self.players.len() - i,
        {
            if self.players[i].handle >= n || self.players[i].attack_speed == 0 {
                assert(!(self@.players[i as int].handle < n && self@.players[i as int].attack_speed
                    > 0));
                return false;
            }
            i += 1;
        }
        true
    }

    /// An independent copy with the same content.
    pub fn duplicate(&self) -> (copy: SimulationState)
        ensures
            copy@ == self@,
    {
        SimulationState { players: copy_of(&self.players), bullets: copy_of(&self.bullets) }
    }

    /// Whether two states have the same content.
    pub fn same_as(&self, other: &SimulationState) -> (same: bool)
        ensures
            same == (self@ == other@),
    {
        if self.players.len() != other.players.len() || self.bullets.len() != other.bullets.len() {
            return false;
        }
        let mut i: usize = 0;
        while i < self.players.len()
            invariant
                i <= self.players.len(),
                self.players.len() == other.players.len(),
                forall|j: int| 0 <= j < i ==> self.players@[j] == other.players@[j],
            decreases self.players.len() - i,
        {
            if self.players[i] != other.players[i] {
                return false;
            }
            i += 1;
        }
        let mut k: usize = 0;
        while k < self.bullets.len()
            invariant
                k <= self.bullets.len(),
                self.bullets.len() == other.bullets.len(),
                self.players@ =~= other.players@,
                forall|j: int| 0 <= j < k ==> self.bullets@[j] == other.bullets@[j],
            decreases self.bullets.len() - k,
        {
            if self.bullets[k] != other.bullets[k] {
                return false;
            }
            k += 1;
        }
        assert(self.bullets@ =~= other.bullets@);
        true
    }
}

/// A step changes neither the number of players nor who steers them nor how
/// fast they shoot, and leaves every player inside the viewport.
pub proof fn lemma_step_players(s: SimulationModel, inputs: Seq<InputIntent>, config: SimConfig)
    requires
        config.wf(),
    ensures
        spec_step(s, inputs, config).players.len() == s.players.len(),
        forall|i: int|
            0 <= i < s.players.len() ==> {
                let after = #[trigger] spec_step(s, inputs, config).players[i];
                &&& after.handle == s.players[i].handle
                &&& after.attack_speed == s.players[i].attack_speed
                &&& config.viewport.contains(after.x, after.y)
            },
{
}

/// Advances the simulation by one frame under the given inputs, one intent per
/// handle.
pub fn step(state: &SimulationState, inputs: &Vec<InputIntent>, config: &SimConfig) -> (next:
    SimulationState)
    requires
        state@.wf(inputs.len() as nat),
        config.wf(),
    ensures
        next@ == spec_step(state@, inputs@, *config),
        next@.wf(inputs.len() as nat),
{
    let mut players = copy_of(&state.players);
    let mut bullets = copy_of(&state.bullets);
    assert forall|j: int| 0 <= j < players.len() implies (#[trigger] players[j]).handle
        < inputs.len() by {
        assert(state@.players[j].handle < inputs.len());
    }
    player_movement(false, inputs, &mut players);
    confine_player(Some(config.viewport), &mut players);
    bullet_handling(&mut bullets, Some(config.viewport), config.frame_ns);
    let ghost confined = players@;
    let ghost flying = bullets@;
    assert forall|j: int| 0 <= j < confined.len() implies (#[trigger] confined[j]).handle
        < inputs.len() && confined[j].attack_speed > 0 by {
        assert(state@.players[j].handle < inputs.len());
    }
    let mut i: usize = 0;
    while i < players.len()
        invariant
            i <= players.len(),
            players.len() == confined.len(),
            forall|j: int|
                0 <= j < confined.len() ==> (#[trigger] confined[j]).handle < inputs.len()
                    && confined[j].attack_speed > 0,
            forall|j: int|
                0 <= j < i ==> players@[j] == spec_shot(
                    confined[j],
                    inputs[confined[j].handle as int].fire,
                    config.frame_ns,
                ),
            forall|j: int| i <= j < players.len() ==> players@[j] == confined[j],
            bullets@ == flying + spec_salvo(confined, inputs@, config.frame_ns, i as nat),
        decreases players.len() - i,
    {
        assert(players@[i as int] == confined[i as int]);
        let mut p = players[i];
        let fire = inputs[p.handle].fire;
        shoot_bullet(&mut p, fire, config.frame_ns, &mut bullets);
        players.set(i, p);
        assert(bullets@ =~= flying + spec_salvo(confined, inputs@, config.frame_ns, (i + 1) as nat));
        i += 1;
    }
    let next = SimulationState { players, bullets };
    assert(next@.players =~= spec_step(state@, inputs@, *config).players);
    next
}

/// Runs the simulation from `start` through every frame of `inputs`.
pub fn replay(start: &SimulationState, inputs: &Vec<Vec<InputIntent>>, config: &SimConfig) -> (end:
    SimulationState)
    requires
        config.wf(),
        forall|f: int| 0 <= f < inputs.len() ==> start@.wf((#[trigger] inputs[f]).len() as nat),
    ensures
        end@ == spec_replay(start@, spec_frames(inputs@), *config),
{
    let mut state = start.duplicate();
    let mut f: usize = 0;
    assert(spec_frames(inputs@).take(0) =~= Seq::<Seq<InputIntent>>::empty());
    while f < inputs.len()
        invariant
            f <= inputs.len(),
            config.wf(),
            state@.players.len() == start@.players.len(),
            forall|i: int|
                0 <= i < start@.players.len() ==> (#[trigger] state@.players[i]).handle
                    == start@.players[i].handle && state@.players[i].attack_speed
                    == start@.players[i].attack_speed,
            forall|g: int| 0 <= g < inputs.len() ==> start@.wf((#[trigger] inputs[g]).len() as nat),
            state@ == spec_replay(start@, spec_frames(inputs@).take(f as int), *config),
        decreases inputs.len() - f,
    {
        proof {
            assert(start@.wf(inputs[f as int].len() as nat));
            lemma_step_players(state@, inputs[f as int]@, *config);
            let frames = spec_frames(inputs@);
            assert(frames.take(f + 1).drop_last() =~= frames.take(f as int));
            assert(frames.take(f + 1).last() == inputs[f as int]@);
        }
        state = step(&state, &inputs[f], config);
        f += 1;
    }
    assert(spec_frames(inputs@).take(f as int) =~= spec_frames(inputs@));
    state
}

/// A replay keeps the state fit for the handles it started with.
pub proof fn lemma_replay_wf(
    start: SimulationModel,
    inputs: Seq<Seq<InputIntent>>,
    config: SimConfig,
    n: nat,
)
    requires
        start.wf(n),
        config.wf(),
    ensures
        spec_replay(start, inputs, config).wf(n),
        spec_replay(start, inputs, config).players.len() == start.players.len(),
    decreases inputs.len(),
{
    if inputs.len() > 0 {
        lemma_replay_wf(start, inputs.drop_last(), config, n);
        let before = spec_replay(start, inputs.drop_last(), config);
        lemma_step_players(before, inputs.last(), config);
        let after = spec_step(before, inputs.last(), config);
        assert forall|i: int| 0 <= i < after.players.len() implies (#[trigger] after.players[i]).handle
            < n && after.players[i].attack_speed > 0 by {
            assert(before.players[i].handle < n);
        }
    }
}

/// Replaying a run in two parts gives what replaying it in one piece gives.
pub proof fn lemma_replay_split(
    start: SimulationModel,
    head: Seq<Seq<InputIntent>>,
    tail: Seq<Seq<InputIntent>>,
    config: SimConfig,
)
    ensures
        spec_replay(spec_replay(start, head, config), tail, config) == spec_replay(
            start,
            head + tail,
            config,
        ),
    decreases tail.len(),
{
    if tail.len() == 0 {
        assert(head + tail =~= head);
    } else {
        lemma_replay_split(start, head, tail.drop_last(), config);
        assert((head + tail).drop_last() =~= head + tail.drop_last());
        assert((head + tail).last() == tail.last());
    }
}

/// Determinism: two runs that start from the same state and receive the same
/// inputs are in the same state after every frame.
pub proof fn lemma_determinism(
    start_a: SimulationModel,
    start_b: SimulationModel,
    inputs_a: Seq<Seq<InputIntent>>,
    inputs_b: Seq<Seq<InputIntent>>,
    config: SimConfig,
)
    requires
        start_a == start_b,
        inputs_a == inputs_b,
    ensures
        forall|f: int|
            0 <= f <= inputs_a.len() ==> #[trigger] spec_replay(start_a, inputs_a.take(f), config)
                == spec_replay(start_b, inputs_b.take(f), config),
{
}

/// Rollback correctness: let a run go wrong from frame `m` on, because some
/// input was mispredicted there. Taking the state that run had before frame
/// `m` and simulating again from `m` with the true inputs ends in the state
/// that a run with the true inputs throughout ends in.
pub proof fn lemma_rollback_restores_true_run(
    start: SimulationModel,
    predicted: Seq<Seq<InputIntent>>,
    confirmed: Seq<Seq<InputIntent>>,
    m: int,
    config: SimConfig,
)
    requires
        0 <= m <= confirmed.len(),
        m <= predicted.len(),
        forall|f: int| 0 <= f < m ==> predicted[f] == confirmed[f],
    ensures
        spec_replay(
            spec_replay(start, predicted.take(m), config),
            confirmed.skip(m),
            config,
        ) == spec_replay(start, confirmed, config),
{
    assert(predicted.take(m) =~= confirmed.take(m));
    lemma_replay_split(start, confirmed.take(m), confirmed.skip(m), config);
    assert(confirmed.take(m) + confirmed.skip(m) =~= confirmed);
}

} // verus!
