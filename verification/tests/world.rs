use gensokio::cooldown::{Cooldown, NANOS_PER_SECOND};
use gensokio::input::InputIntent;
use gensokio::bullet::{bullet_handling, shoot_bullet, Bullet};
use gensokio::player::{
    confine_player, player_movement, spawn_player, Player, ATTACK_SPEED, PLAYER_COUNT,
};
use gensokio::viewport::{playfield_layout, PlayfieldLayout, Viewport};
use gensokio::world::{replay, step, SimConfig, SimulationState};

const FRAME_60HZ: u64 = 16_666_667;
const FRAME_20HZ: u64 = 50_000_000;

fn pressed(up: bool, down: bool, left: bool, right: bool, fire: bool) -> InputIntent {
    InputIntent { up, down, left, right, fire }
}

fn field() -> Viewport {
    Viewport::centered(0, 0, 512_000, 768_000)
}

fn player_at(x: i64, y: i64) -> Player {
    Player { attack_speed: 20, handle: 0, cooldown: Cooldown::new(50_000_000), x, y }
}

#[test]
fn interval_is_one_second_over_attack_speed() {
    assert_eq!(NANOS_PER_SECOND, 1_000_000_000);
    assert_eq!(Cooldown::interval_ns(20), 50_000_000);
    assert_eq!(Cooldown::interval_ns(3), 333_333_333);
    assert_eq!(Cooldown::interval_ns(u32::MAX), 0);
}

#[test]
fn cooldown_finishes_when_the_interval_is_reached() {
    let mut c = Cooldown::new(50_000_000);
    c.tick(FRAME_60HZ);
    assert_eq!(c, Cooldown { elapsed_ns: 16_666_667, duration_ns: 50_000_000, finished: false });
    c.tick(FRAME_60HZ);
    assert_eq!(c, Cooldown { elapsed_ns: 33_333_334, duration_ns: 50_000_000, finished: false });
    c.tick(FRAME_60HZ);
    assert_eq!(c, Cooldown { elapsed_ns: 1, duration_ns: 50_000_000, finished: true });
    assert!(c.finished());
    c.tick(FRAME_60HZ);
    assert_eq!(c, Cooldown { elapsed_ns: 16_666_668, duration_ns: 50_000_000, finished: false });
}

#[test]
fn cooldown_keeps_the_remainder_of_a_long_step() {
    let mut c = Cooldown::new(50_000_000);
    c.tick(120_000_000);
    assert_eq!(c, Cooldown { elapsed_ns: 20_000_000, duration_ns: 50_000_000, finished: true });
}

#[test]
fn cooldown_of_no_length_is_always_finished() {
    let mut c = Cooldown::new(0);
    c.tick(7);
    assert_eq!(c, Cooldown { elapsed_ns: 0, duration_ns: 0, finished: true });
}

#[test]
fn cooldown_near_the_end_of_the_range() {
    let mut c = Cooldown { elapsed_ns: u64::MAX - 1, duration_ns: u64::MAX, finished: false };
    c.tick(u64::MAX);
    assert_eq!(c, Cooldown { elapsed_ns: u64::MAX - 1, duration_ns: u64::MAX, finished: true });
}

#[test]
fn cooldown_reset_and_set_duration() {
    let mut c = Cooldown { elapsed_ns: 9, duration_ns: 10, finished: true };
    c.set_duration(20);
    assert_eq!(c, Cooldown { elapsed_ns: 9, duration_ns: 20, finished: true });
    c.reset();
    assert_eq!(c, Cooldown { elapsed_ns: 0, duration_ns: 20, finished: false });
}

#[test]
fn two_players_spawn_at_the_origin() {
    let players = spawn_player();
    assert_eq!(players.len(), PLAYER_COUNT);
    for (i, p) in players.iter().enumerate() {
        assert_eq!(p.handle, i);
        assert_eq!(p.attack_speed, ATTACK_SPEED);
        assert_eq!(p.cooldown, Cooldown { elapsed_ns: 0, duration_ns: 50_000_000, finished: false });
        assert_eq!((p.x, p.y), (0, 0));
    }
    let state = SimulationState::new();
    assert_eq!(state.players, players);
    assert!(state.bullets.is_empty());
    assert!(state.fits(2));
    assert!(!state.fits(1));
}

#[test]
fn movement_follows_the_intent_of_the_handle() {
    let mut players = spawn_player();
    let inputs = vec![pressed(true, false, false, true, false), pressed(false, true, true, false, false)];
    player_movement(false, &inputs, &mut players);
    assert_eq!((players[0].x, players[0].y), (6000, 6000));
    assert_eq!((players[1].x, players[1].y), (-6000, -6000));
}

#[test]
fn opposite_controls_cancel() {
    let mut players = spawn_player();
    let inputs = vec![pressed(true, true, true, true, true), InputIntent::idle()];
    player_movement(false, &inputs, &mut players);
    assert_eq!((players[0].x, players[0].y), (0, 0));
    assert_eq!((players[1].x, players[1].y), (0, 0));
}

#[test]
fn focus_slows_to_six_tenths() {
    let mut players = spawn_player();
    let inputs = vec![pressed(true, false, true, false, false), pressed(false, false, false, true, false)];
    player_movement(true, &inputs, &mut players);
    assert_eq!((players[0].x, players[0].y), (-3600, 3600));
    assert_eq!((players[1].x, players[1].y), (3600, 0));
}

#[test]
fn movement_stops_at_the_end_of_the_range() {
    let mut players = vec![player_at(i64::MAX - 10, i64::MIN + 10)];
    player_movement(false, &vec![pressed(false, true, false, true, false)], &mut players);
    assert_eq!((players[0].x, players[0].y), (i64::MAX, i64::MIN));
}

#[test]
fn viewport_is_centred_on_the_camera() {
    let v = Viewport::centered(10_000, -20_000, 512_000, 768_000);
    assert_eq!(v, Viewport { left: -246_000, right: 266_000, bottom: -404_000, top: 364_000 });
    let odd = Viewport::centered(0, 0, 5, 7);
    assert_eq!(odd, Viewport { left: -2, right: 2, bottom: -3, top: 3 });
}

#[test]
fn confinement_brings_every_player_inside() {
    let v = field();
    let starts = [
        (0, 0),
        (-256_000, 384_000),
        (-256_001, 0),
        (256_001, 0),
        (0, 384_001),
        (0, -384_001),
        (i64::MAX, i64::MIN),
        (i64::MIN, i64::MAX),
    ];
    let mut players: Vec<Player> = starts.iter().map(|&(x, y)| player_at(x, y)).collect();
    confine_player(Some(v), &mut players);
    let expected = [
        (0, 0),
        (-256_000, 384_000),
        (-256_000, 0),
        (256_000, 0),
        (0, 384_000),
        (0, -384_000),
        (256_000, -384_000),
        (-256_000, 384_000),
    ];
    for (p, &(x, y)) in players.iter().zip(expected.iter()) {
        assert_eq!((p.x, p.y), (x, y));
        assert!(v.left <= p.x && p.x <= v.right && v.bottom <= p.y && p.y <= v.top);
    }
}

#[test]
fn without_a_viewport_nothing_is_confined() {
    let mut players = vec![player_at(9_000_000, -9_000_000)];
    confine_player(None, &mut players);
    assert_eq!((players[0].x, players[0].y), (9_000_000, -9_000_000));
    let mut bullets = vec![Bullet { x: 0, y: 0, age: 0 }];
    bullet_handling(&mut bullets, None, FRAME_60HZ);
    assert_eq!(bullets, vec![Bullet { x: 0, y: 0, age: 0 }]);
}

#[test]
fn bullets_rise_and_leave_past_the_top() {
    let v = field();
    let mut bullets = vec![
        Bullet { x: 1, y: 0, age: 0 },
        Bullet { x: 2, y: 384_000 - 23_437, age: 3 },
        Bullet { x: 3, y: 384_000 - 23_436, age: 4 },
        Bullet { x: 4, y: 500_000, age: 5 },
        Bullet { x: 5, y: -100, age: u32::MAX },
    ];
    bullet_handling(&mut bullets, Some(v), 15_625_000);
    assert_eq!(
        bullets,
        vec![
            Bullet { x: 1, y: 23_437, age: 1 },
            Bullet { x: 2, y: 384_000, age: 4 },
            Bullet { x: 5, y: 23_337, age: u32::MAX },
        ]
    );
}

#[test]
fn a_shot_needs_fire_and_a_finished_cooldown() {
    let mut p = player_at(100_000, 50_000);
    let mut bullets = Vec::new();
    assert!(!shoot_bullet(&mut p, true, FRAME_60HZ, &mut bullets));
    assert!(!shoot_bullet(&mut p, true, FRAME_60HZ, &mut bullets));
    assert!(bullets.is_empty());
    assert!(shoot_bullet(&mut p, true, FRAME_60HZ, &mut bullets));
    assert_eq!(
        bullets,
        vec![Bullet { x: 80_000, y: 110_000, age: 0 }, Bullet { x: 120_000, y: 110_000, age: 0 }]
    );
    assert_eq!(p.cooldown, Cooldown { elapsed_ns: 0, duration_ns: 50_000_000, finished: false });
    assert_eq!((p.x, p.y), (100_000, 50_000));
}

#[test]
fn without_fire_the_cooldown_runs_on() {
    let mut p = player_at(0, 0);
    let mut bullets = Vec::new();
    for _ in 0..3 {
        assert!(!shoot_bullet(&mut p, false, FRAME_60HZ, &mut bullets));
    }
    assert!(bullets.is_empty());
    assert_eq!(p.cooldown, Cooldown { elapsed_ns: 1, duration_ns: 50_000_000, finished: true });
}

#[test]
fn a_shot_sets_the_interval_from_the_attack_speed() {
    let mut p = Player { attack_speed: 4, handle: 0, cooldown: Cooldown::new(10), x: 0, y: 0 };
    let mut bullets = Vec::new();
    assert!(shoot_bullet(&mut p, true, 10, &mut bullets));
    assert_eq!(p.cooldown, Cooldown { elapsed_ns: 0, duration_ns: 250_000_000, finished: false });
}

#[test]
fn second_fire_inside_the_cooldown_gives_one_spawn() {
    let mut p = player_at(0, 0);
    let mut bullets = Vec::new();
    shoot_bullet(&mut p, false, FRAME_60HZ, &mut bullets);
    shoot_bullet(&mut p, false, FRAME_60HZ, &mut bullets);
    let first = shoot_bullet(&mut p, true, FRAME_60HZ, &mut bullets);
    let second = shoot_bullet(&mut p, true, FRAME_60HZ, &mut bullets);
    assert!(first);
    assert!(!second);
    assert_eq!(bullets.len(), 2);
}

#[test]
fn second_fire_after_the_cooldown_gives_two_spawns() {
    let mut p = player_at(0, 0);
    let mut bullets = Vec::new();
    let first = shoot_bullet(&mut p, true, FRAME_20HZ, &mut bullets);
    let second = shoot_bullet(&mut p, true, FRAME_20HZ, &mut bullets);
    assert!(first);
    assert!(second);
    assert_eq!(bullets.len(), 4);
}

#[test]
fn step_moves_confines_advances_and_shoots() {
    let config = SimConfig { viewport: field(), frame_ns: FRAME_20HZ };
    let mut state = SimulationState::new();
    state.players[0].x = 255_000;
    state.bullets.push(Bullet { x: 7, y: 0, age: 0 });
    state.bullets.push(Bullet { x: 8, y: 380_000, age: 9 });
    let inputs = vec![pressed(false, false, false, true, true), pressed(true, false, false, false, false)];
    let next = step(&state, &inputs, &config);
    assert_eq!((next.players[0].x, next.players[0].y), (256_000, 0));
    assert_eq!((next.players[1].x, next.players[1].y), (0, 6000));
    assert_eq!(
        next.bullets,
        vec![
            Bullet { x: 7, y: 75_000, age: 1 },
            Bullet { x: 236_000, y: 60_000, age: 0 },
            Bullet { x: 276_000, y: 60_000, age: 0 },
        ]
    );
    assert_eq!(next.players[0].cooldown, Cooldown { elapsed_ns: 0, duration_ns: 50_000_000, finished: false });
    assert_eq!(next.players[1].cooldown, Cooldown { elapsed_ns: 0, duration_ns: 50_000_000, finished: true });
    assert_eq!(state.bullets.len(), 2);
}

#[test]
fn two_runs_agree_at_every_frame() {
    let config = SimConfig { viewport: field(), frame_ns: FRAME_60HZ };
    let start = SimulationState::new();
    let mut inputs = Vec::new();
    for f in 0u32..40 {
        inputs.push(vec![
            pressed(f % 3 == 0, f % 5 == 0, f % 2 == 0, f % 7 == 0, f % 4 != 0),
            pressed(f % 2 == 1, false, f % 11 == 0, true, f % 3 != 1),
        ]);
    }
    let mut a = start.duplicate();
    let mut b = start.duplicate();
    for (f, frame) in inputs.iter().enumerate() {
        a = step(&a, frame, &config);
        b = step(&b, frame, &config);
        assert!(a.same_as(&b));
        assert_eq!(a, b);
        let prefix: Vec<Vec<InputIntent>> = inputs[..=f].to_vec();
        assert_eq!(replay(&start, &prefix, &config), a);
    }
    assert!(!a.bullets.is_empty());
}

#[test]
fn replay_of_nothing_is_the_start() {
    let config = SimConfig { viewport: field(), frame_ns: FRAME_60HZ };
    let start = SimulationState::new();
    assert_eq!(replay(&start, &Vec::new(), &config), start);
}

#[test]
fn states_with_different_content_differ() {
    let a = SimulationState::new();
    let mut b = a.duplicate();
    assert!(a.same_as(&b));
    b.bullets.push(Bullet { x: 0, y: 0, age: 0 });
    assert!(!a.same_as(&b));
    let mut c = a.duplicate();
    c.players[1].x = 1;
    assert!(!a.same_as(&c));
}

#[test]
fn playfield_is_centred_vertically() {
    assert_eq!(playfield_layout(1080), PlayfieldLayout { x: 200, y: 156, width: 512, height: 768 });
    assert_eq!(playfield_layout(769), PlayfieldLayout { x: 200, y: 0, width: 512, height: 768 });
    assert_eq!(playfield_layout(600), PlayfieldLayout { x: 200, y: 0, width: 512, height: 768 });
}
