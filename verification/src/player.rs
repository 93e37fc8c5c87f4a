//! The players: how they enter a match, read their controls, move, and are
//! kept in view.

use crate::cooldown::{spec_fresh, spec_interval_ns, Cooldown};
use crate::input::{encode, spec_encode, InputIntent};
use crate::viewport::{clamp, sat_add, spec_clamp, spec_saturate, Viewport};
use bevy::platform::collections::HashMap;
use vstd::prelude::*;

verus! {

/// Distance a player covers per frame along one axis.
pub const MOVEMENT_SPEED: i64 = 6000;

/// Distance a player covers per frame along one axis while focused: six tenths
/// of the ordinary speed.
pub const FOCUS_SPEED: i64 = 3600;

/// Shots per second of a newly spawned player.
pub const ATTACK_SPEED: u32 = 20;

/// Number of players in a match.
pub const PLAYER_COUNT: usize = 2;

/// A player: who steers it, how fast it shoots, and where it stands.
#[derive(Clone, Copy, Debug, PartialEq, Eq, Structural)]
pub struct Player {
    pub attack_speed: u32,
    pub handle: usize,
    pub cooldown: Cooldown,
    pub x: i64,
    pub y: i64,
}

/// The player as it enters a match: at the origin, with a fresh cooldown of one
/// shot interval.
pub open spec fn spec_new_player(handle: usize) -> Player {
    Player {
        attack_speed: ATTACK_SPEED,
        handle,
        cooldown: spec_fresh(spec_interval_ns(ATTACK_SPEED)),
        x: 0,
        y: 0,
    }
}

/// The two players of a match, handle 0 first.
pub fn spawn_player() -> (players: Vec<Player>)
    ensures
        players@ == seq![spec_new_player(0), spec_new_player(1)],
{
    let mut players: Vec<Player> = Vec::new();
    let mut handle: usize = 0;
    while handle < PLAYER_COUNT
        invariant
            handle <= PLAYER_COUNT,
            players@ == Seq::new(handle as nat, |i: int| spec_new_player(i as usize)),
        decreases PLAYER_COUNT - handle,
    {
        players.push(
            Player {
                attack_speed: ATTACK_SPEED,
                handle,
                cooldown: Cooldown::new(Cooldown::interval_ns(ATTACK_SPEED)),
                x: 0,
                y: 0,
            },
        );
        handle += 1;
    }
    players
}

/// Distance covered per frame along an axis on which the player moves.
pub open spec fn spec_speed(focus: bool) -> int {
    if focus {
        FOCUS_SPEED as int
    } else {
        MOVEMENT_SPEED as int
    }
}

/// Signed distance covered in one frame along one axis: the speed forward, the
/// speed backward, or nothing when both or neither control is held.
pub open spec fn spec_displacement(backward: bool, forward: bool, focus: bool) -> int {
    if forward && !backward {
        spec_speed(focus)
    } else if backward && !forward {
        -spec_speed(focus)
    } else {
        0
    }
}

/// The player after one frame of movement under `intent`.
pub open spec fn spec_moved(p: Player, intent: InputIntent, focus: bool) -> Player {
    Player {
        x: spec_saturate(p.x + spec_displacement(intent.left, intent.right, focus)),
        y: spec_saturate(p.y + spec_displacement(intent.down, intent.up, focus)),
        ..p
    }
}

/// Every player moved by the intent of the handle that steers it.
pub open spec fn spec_all_moved(players: Seq<Player>, inputs: Seq<InputIntent>, focus: bool) -> Seq<
    Player,
> {
    Seq::new(players.len(), |i: int| spec_moved(players[i], inputs[players[i].handle as int], focus))
}

fn displacement(backward: bool, forward: bool, focus: bool) -> (d: i64)
    ensures
        d == spec_displacement(backward, forward, focus),
{
    let speed: i64 = if focus {
        FOCUS_SPEED
    } else {
        MOVEMENT_SPEED
    };
    if forward && !backward {
        speed
    } else if backward && !forward {
        -speed
    } else {
        0
    }
}

/// Moves every player by one frame. Each player follows the intent stored
/// under its handle; opposite controls cancel; `focus` slows all of them.
pub fn player_movement(focus: bool, inputs: &Vec<InputIntent>, players: &mut Vec<Player>)
    requires
        forall|i: int| 0 <= i < old(players).len() ==> (#[trigger] old(players)[i]).handle < inputs.len(),
    ensures
        final(players)@ == spec_all_moved(old(players)@, inputs@, focus),
{
    let mut i: usize = 0;
    while i < players.len()
        invariant
            i <= players.len(),
            players.len() == old(players).len(),
            forall|j: int| 0 <= j < old(players).len() ==> (#[trigger] old(players)[j]).handle < inputs.len(),
            forall|j: int|
                0 <= j < i ==> players@[j] == spec_moved(
                    old(players)[j],
                    inputs[old(players)[j].handle as int],
                    focus,
                ),
            forall|j: int| i <= j < players.len() ==> players@[j] == old(players)[j],
        decreases players.len() - i,
    {
        let p = players[i];
        let intent = inputs[p.handle];
        let moved = Player {
            x: sat_add(p.x, displacement(intent.left, intent.right, focus)),
            y: sat_add(p.y, displacement(intent.down, intent.up, focus)),
            ..p
        };
        players.set(i, moved);
        i += 1;
    }
}

/// The player moved to the nearest point of the viewport.
pub open spec fn spec_confined(p: Player, v: Viewport) -> Player {
    Player {
        x: spec_clamp(p.x as int, v.left as int, v.right as int) as i64,
        y: spec_clamp(p.y as int, v.bottom as int, v.top as int) as i64,
        ..p
    }
}

/// Every player confined to the viewport.
pub open spec fn spec_all_confined(players: Seq<Player>, v: Viewport) -> Seq<Player> {
    Seq::new(players.len(), |i: int| spec_confined(players[i], v))
}

/// Brings every player back into the viewport, wherever it stood. Without a
/// viewport nothing moves.
pub fn confine_player(viewport: Option<Viewport>, players: &mut Vec<Player>)
    requires
        viewport matches Some(v) ==> v.wf(),
    ensures
        viewport matches Some(v) ==> final(players)@ == spec_all_confined(old(players)@, v),
        viewport matches Some(v) ==> forall|i: int|
            0 <= i < final(players).len() ==> v.contains(
                (#[trigger] final(players)[i]).x,
                final(players)[i].y,
            ),
        viewport is None ==> final(players)@ == old(players)@,
{
    if let Some(v) = viewport {
        let mut i: usize = 0;
        while i < players.len()
            invariant
                v.wf(),
                i <= players.len(),
                players.len() == old(players).len(),
                forall|j: int| 0 <= j < i ==> players@[j] == spec_confined(old(players)[j], v),
                forall|j: int| i <= j < players.len() ==> players@[j] == old(players)[j],
            decreases players.len() - i,
        {
            let p = players[i];
            let confined = Player {
                x: clamp(p.x, v.left, v.right),
                y: clamp(p.y, v.bottom, v.top),
                ..p
            };
            players.set(i, confined);
            i += 1;
        }
    }
}

/// Viewport confinement: wherever a player stood, inside or outside, after
/// confinement it lies within the viewport, edges included.
pub proof fn lemma_confined_inside(p: Player, v: Viewport)
    requires
        v.wf(),
    ensures
        v.contains(spec_confined(p, v).x, spec_confined(p, v).y),
        v.contains(p.x, p.y) ==> spec_confined(p, v) == p,
{
}

/// `bevy::platform::collections::HashMap`, the map type in which the engine
/// expects the local inputs of a frame. Its inside is not visible to proofs.
#[verifier::external_type_specification]
#[verifier::external_body]
#[verifier::reject_recursive_types(K)]
#[verifier::reject_recursive_types(V)]
#[verifier::reject_recursive_types(S)]
pub struct ExHashMap<K, V, S>(HashMap<K, V, S>);

/// `bevy::platform::hash::FixedHasher`, the default hasher of the map above.
#[verifier::external_type_specification]
#[verifier::external_body]
pub struct ExFixedHasher(bevy::platform::hash::FixedHasher);

/// The key-value pairs that an input map holds.
pub uninterp spec fn input_map_contents(m: HashMap<usize, u8>) -> Map<usize, u8>;

/// Calls `HashMap::new`. Trusted: the fresh map holds no pair.
#[verifier::external_body]
fn input_map_new() -> (m: HashMap<usize, u8>)
    ensures
        input_map_contents(m) =~= Map::empty(),
{
    HashMap::new()
}

/// Calls `HashMap::insert`. Trusted: afterwards the map holds `input` under
/// `handle`, replacing what stood there, and every other pair as before.
#[verifier::external_body]
fn input_map_insert(m: &mut HashMap<usize, u8>, handle: usize, input: u8)
    ensures
        input_map_contents(*final(m)) == input_map_contents(*old(m)).insert(handle, input),
{
    m.insert(handle, input);
}

/// The map from each of the given handles to one input byte.
pub open spec fn spec_local_inputs(handles: Seq<usize>, byte: u8) -> Map<usize, u8> {
    Map::new(|h: usize| handles.contains(h), |h: usize| byte)
}

/// Collects the input byte of this frame for every local player: each local
/// handle is mapped to the encoding of what is pressed right now.
pub fn read_local_inputs(pressed: InputIntent, local_players: &Vec<usize>) -> (local_inputs: HashMap<
    usize,
    u8,
>)
    ensures
        input_map_contents(local_inputs) == spec_local_inputs(
            local_players@,
            spec_encode(pressed),
        ),
{
    let mut local_inputs = input_map_new();
    let mut i: usize = 0;
    assert(input_map_contents(local_inputs) =~= spec_local_inputs(
        local_players@.take(0),
        spec_encode(pressed),
    ));
    while i < local_players.len()
        invariant
            i <= local_players.len(),
            input_map_contents(local_inputs) == spec_local_inputs(
                local_players@.take(i as int),
                spec_encode(pressed),
            ),
        decreases local_players.len() - i,
    {
        let input = encode(pressed);
        let handle = local_players[i];
        input_map_insert(&mut local_inputs, handle, input);
        proof {
            let before = local_players@.take(i as int);
            let after = local_players@.take(i + 1);
            assert(after == before.push(handle));
            assert forall|h: usize| after.contains(h) <==> (before.contains(h) || h == handle) by {
                if before.contains(h) {
                    let k = choose|k: int| 0 <= k < before.len() && before[k] == h;
                    assert(after[k] == h);
                }
                if h == handle {
                    assert(after[i as int] == h);
                }
            }
            assert(input_map_contents(local_inputs) =~= spec_local_inputs(
                after,
                spec_encode(pressed),
            ));
        }
        i += 1;
    }
    assert(local_players@.take(i as int) == local_players@);
    local_inputs
}

} // verus!
