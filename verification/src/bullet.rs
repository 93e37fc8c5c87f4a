//! Bullets: how they fly, when they leave, and how players fire them.

use crate::cooldown::{spec_fresh, spec_interval_ns, spec_ticked, Cooldown, NANOS_PER_SECOND};
use crate::player::Player;
use crate::viewport::{sat_add, spec_saturate, Viewport};
use vstd::prelude::*;

verus! {

/// Distance a bullet rises per second.
pub const BULLET_SPEED: u64 = 1_500_000;

/// Sideways distance between a player and each of the two bullets it fires.
pub const BULLET_OFFSET_X: i64 = 20_000;

/// Distance above the player at which its bullets appear.
pub const BULLET_OFFSET_Y: i64 = 60_000;

/// A bullet in flight: where it is and for how many frames it has flown.
#[derive(Clone, Copy, Debug, PartialEq, Eq, Structural)]
pub struct Bullet {
    pub x: i64,
    pub y: i64,
    pub age: u32,
}

/// Distance a bullet rises during `delta_ns` nanoseconds, in whole units.
pub open spec fn spec_rise(delta_ns: u64) -> int {
    BULLET_SPEED * delta_ns / (NANOS_PER_SECOND as int)
}

/// The bullet one frame later: higher by `rise` and one frame older.
pub open spec fn spec_risen(b: Bullet, rise: int) -> Bullet {
    Bullet {
        x: b.x,
        y: spec_saturate(b.y + rise),
        age: if b.age < u32::MAX {
            (b.age + 1) as u32
        } else {
            b.age
        },
    }
}

/// The rule that moves a bullet by one frame.
pub open spec fn spec_rising(rise: int) -> spec_fn(Bullet) -> Bullet {
    |b: Bullet| spec_risen(b, rise)
}

/// The rule that keeps a bullet: it has not passed the top edge.
pub open spec fn spec_visible(top: i64) -> spec_fn(Bullet) -> bool {
    |b: Bullet| b.y <= top
}

/// The bullets one frame later: each one risen, and those that passed the top
/// edge gone. The others keep their order.
pub open spec fn spec_bullets_advanced(bullets: Seq<Bullet>, top: i64, rise: int) -> Seq<Bullet> {
    bullets.map_values(spec_rising(rise)).filter(spec_visible(top))
}

proof fn lemma_advanced_push(bullets: Seq<Bullet>, b: Bullet, top: i64, rise: int)
    ensures
        spec_bullets_advanced(bullets.push(b), top, rise) == if spec_risen(b, rise).y <= top {
            spec_bullets_advanced(bullets, top, rise).push(spec_risen(b, rise))
        } else {
            spec_bullets_advanced(bullets, top, rise)
        },
{
    let risen = bullets.map_values(spec_rising(rise));
    let all = bullets.push(b).map_values(spec_rising(rise));
    assert(all =~= risen.push(spec_risen(b, rise)));
    assert(all.drop_last() =~= risen);
    reveal(Seq::filter);
}

fn rise_of(delta_ns: u64) -> (rise: i64)
    ensures
        rise == spec_rise(delta_ns),
{
    let product: u128 = (BULLET_SPEED as u128) * (delta_ns as u128);
    (product / (NANOS_PER_SECOND as u128)) as i64
}

/// Advances every bullet by one frame of `delta_ns` and drops those that have
/// risen past the top edge of the viewport. Without a viewport nothing moves.
pub fn bullet_handling(bullets: &mut Vec<Bullet>, viewport: Option<Viewport>, delta_ns: u64)
    ensures
        viewport matches Some(v) ==> final(bullets)@ == spec_bullets_advanced(
            old(bullets)@,
            v.top,
            spec_rise(delta_ns),
        ),
        viewport is None ==> final(bullets)@ == old(bullets)@,
{
    if let Some(v) = viewport {
        let rise = rise_of(delta_ns);
        let mut kept: Vec<Bullet> = Vec::new();
        let mut i: usize = 0;
        assert(bullets@.take(0) =~= Seq::<Bullet>::empty());
        assert(spec_bullets_advanced(Seq::<Bullet>::empty(), v.top, rise as int) =~= Seq::<
            Bullet,
        >::empty()) by {
            reveal(Seq::filter);
        }
        while i < bullets.len()
            invariant
                i <= bullets.len(),
                *bullets == *old(bullets),
                rise == spec_rise(delta_ns),
                kept@ == spec_bullets_advanced(bullets@.take(i as int), v.top, rise as int),
            decreases bullets.len() - i,
        {
            let b = bullets[i];
            let risen = Bullet {
                x: b.x,
                y: sat_add(b.y, rise),
                age: if b.age < u32::MAX {
                    b.age + 1
                } else {
                    b.age
                },
            };
            proof {
                assert(bullets@.take(i + 1) =~= bullets@.take(i as int).push(b));
                lemma_advanced_push(bullets@.take(i as int), b, v.top, rise as int);
            }
            if risen.y <= v.top {
                kept.push(risen);
            }
            i += 1;
        }
        assert(bullets@.take(i as int) =~= bullets@);
        *bullets = kept;
    }
}

/// Whether a player shoots in a frame: fire is held and the step completes a
/// cooldown interval.
pub open spec fn spec_fires(p: Player, fire: bool, delta_ns: u64) -> bool {
    fire && spec_ticked(p.cooldown, delta_ns).finished
}

/// The player after the shooting phase of a frame. Its cooldown advances by
/// the step; a shot starts a new interval of one over its attack speed.
pub open spec fn spec_shot(p: Player, fire: bool, delta_ns: u64) -> Player {
    if spec_fires(p, fire, delta_ns) {
        Player { cooldown: spec_fresh(spec_interval_ns(p.attack_speed)), ..p }
    } else {
        Player { cooldown: spec_ticked(p.cooldown, delta_ns), ..p }
    }
}

/// The two bullets of one shot: left and right of the player, above it.
pub open spec fn spec_volley(p: Player) -> Seq<Bullet> {
    seq![
        Bullet {
            x: spec_saturate(p.x - BULLET_OFFSET_X),
            y: spec_saturate(p.y + BULLET_OFFSET_Y),
            age: 0,
        },
        Bullet {
            x: spec_saturate(p.x + BULLET_OFFSET_X),
            y: spec_saturate(p.y + BULLET_OFFSET_Y),
            age: 0,
        },
    ]
}

/// The bullets that a player adds in a frame.
pub open spec fn spec_spawned(p: Player, fire: bool, delta_ns: u64) -> Seq<Bullet> {
    if spec_fires(p, fire, delta_ns) {
        spec_volley(p)
    } else {
        Seq::empty()
    }
}

/// Runs the shooting phase of one frame for one player: advances its cooldown
/// by `delta_ns` and, when fire is held as the cooldown completes, appends two
/// bullets and starts the cooldown over. Tells whether it shot.
pub fn shoot_bullet(player: &mut Player, fire: bool, delta_ns: u64, bullets: &mut Vec<Bullet>) -> (shot:
    bool)
    requires
        old(player).attack_speed > 0,
    ensures
        shot == spec_fires(*old(player), fire, delta_ns),
        *final(player) == spec_shot(*old(player), fire, delta_ns),
        final(bullets)@ == old(bullets)@ + spec_spawned(*old(player), fire, delta_ns),
{
    let mut cooldown = player.cooldown;
    cooldown.tick(delta_ns);
    if fire && cooldown.finished() {
        let y = sat_add(player.y, BULLET_OFFSET_Y);
        bullets.push(Bullet { x: sat_add(player.x, -BULLET_OFFSET_X), y, age: 0 });
        bullets.push(Bullet { x: sat_add(player.x, BULLET_OFFSET_X), y, age: 0 });
        cooldown.set_duration(Cooldown::interval_ns(player.attack_speed));
        cooldown.reset();
        player.cooldown = cooldown;
        assert(bullets@ =~= old(bullets)@ + spec_volley(*old(player)));
        true
    } else {
        player.cooldown = cooldown;
        assert(bullets@ =~= old(bullets)@ + Seq::<Bullet>::empty());
        false
    }
}

} // verus!
