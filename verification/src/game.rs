//! The simulation core: game state, phase machine, and the per-tick
//! update passes.

use vstd::prelude::*;
use rand::rngs::StdRng;
use crate::entities::Bullet;
use crate::entities::Enemy;
use crate::entities::Player;
use crate::input::Input;
use crate::math::ARENA_H;
use crate::math::ARENA_W;
use crate::math::SCALE;
use crate::math::Vec2;
use crate::math::clamp1;
use crate::math::clamp_rect;
use crate::math::lemma_norm_bounds;
use crate::math::lemma_scale1_mag;
use crate::math::norm1;
use crate::math::scale1;
use crate::math::sdiv;
use crate::math::sqrt_of;
use crate::render::HEIGHT;
use crate::render::WIDTH;
use crate::render::fill_circle;
use crate::render::fill_rect;
use crate::render::rgb;
use crate::rng::rng_from_entropy;
use crate::rng::rng_from_seed;
use crate::rng::rng_range;
use vstd::string::StringExecFns;

verus! {

/// Largest simulated step per tick, milli-time-units: a stalled host
/// loop cannot make an entity tunnel through others.
pub const DT_MAX: i64 = 50;

/// Countdown of the opening intermission, milli-time-units.
pub const START_COUNTDOWN: i64 = 2_000;

/// Countdown between waves, milli-time-units.
pub const WAVE_COUNTDOWN: i64 = 3_000;

/// Enemies in the first wave's base count.
pub const WAVE_BASE: u32 = 6;

/// Additional enemies per wave.
pub const WAVE_PER: u32 = 4;

/// Highest wave number the arithmetic is sized for.
pub const WAVE_LIMIT: u32 = 10_000;

/// Largest enemy collection any reachable wave can hold.
pub const MAX_ENEMIES: u32 = WAVE_BASE + WAVE_PER * WAVE_LIMIT;

/// How far beyond the arena edge an enemy spawns, milli-units.
pub const SPAWN_MARGIN: i64 = 30_000;

/// Enemy radius, milli-units.
pub const ENEMY_R: i64 = 14_000;

/// Enemy speed for wave 0, milli-units per time unit.
pub const ENEMY_BASE_SPEED: i64 = 70_000;

/// Enemy speed gained per wave, milli-units per time unit.
pub const ENEMY_SPEED_PER_WAVE: i64 = 7_000;

/// Enemy speed of the highest reachable wave.
pub const ENEMY_SPEED_MAX: i64 = 70_070_000;

/// Enemy hit points for wave 0.
pub const ENEMY_BASE_HP: i64 = 2;

/// Hit points the player loses per enemy contact.
pub const CONTACT_DAMAGE: i64 = 10;

/// How far an overlapping enemy is pushed off the player, milli-units.
pub const NUDGE_DIST: i64 = 8_000;

/// Bullet radius, milli-units.
pub const BULLET_R: i64 = 4_000;

/// Bullet speed, milli-units per time unit.
pub const BULLET_SPEED: i64 = 800_000;

/// Bullet lifetime, milli-time-units.
pub const BULLET_LIFE: i64 = 2_000;

/// How far beyond the arena a bullet may travel before it dies,
/// milli-units.
pub const BULLET_MARGIN: i64 = 50_000;

/// Gap between the player's edge and a new bullet, milli-units.
pub const MUZZLE_GAP: i64 = 6_000;

/// Score awarded per enemy killed.
pub const KILL_SCORE: i64 = 10;

/// Ceiling the score saturates at instead of overflowing.
pub const SCORE_CAP: i64 = 1_000_000_000_000_000;

/// Floor the cooldown timer saturates at instead of underflowing.
pub const SHOOT_T_FLOOR: i64 = -1_000_000;

/// Bound on entity coordinates, milli-units.
pub const ENT_BOUND: i64 = 10_000_000;

/// The phase the simulation is in.
#[derive(PartialEq, Eq, Structural, Clone, Copy, Debug)]
pub enum Phase {
    /// Calm period between waves: bullets still fly, nothing spawns.
    Intermission,
    /// Active wave: shooting, pursuit and collisions run.
    Combat,
    /// Terminal until an explicit reset.
    GameOver,
}

/// The whole game state, owned and mutated only by [`Game::update`].
pub struct Game {
    /// Random source for spawn positioning; opaque to the contracts.
    pub rng: StdRng,
    /// The player avatar.
    pub player: Player,
    /// Live bullets, in firing order.
    pub bullets: Vec<Bullet>,
    /// Live enemies, in spawn order.
    pub enemies: Vec<Enemy>,
    /// Current wave number, 0 before the first wave.
    pub wave: u32,
    /// Count of enemies still alive this wave.
    pub enemies_alive: u32,
    /// Cumulative score.
    pub score: i64,
    /// Current phase.
    pub phase: Phase,
    /// Remaining intermission countdown, milli-time-units.
    pub intermission: i64,
}

/// The step actually simulated for a host-reported elapsed time:
/// negative steps are treated as no time passing, oversized ones are
/// cut to [`DT_MAX`].
pub open spec fn clamp_dt(dt: int) -> int {
    if dt < 0 {
        0
    } else if dt > DT_MAX {
        DT_MAX as int
    } else {
        dt
    }
}

/// The cooldown timer after `d` elapses, saturating at its floor.
pub open spec fn cooled(t: int, d: int) -> int {
    if t - d < SHOOT_T_FLOOR {
        SHOOT_T_FLOOR as int
    } else {
        t - d
    }
}

/// The score after one kill, saturating at its ceiling.
pub open spec fn scored(s: int) -> int {
    if s <= SCORE_CAP - KILL_SCORE {
        s + KILL_SCORE
    } else {
        s
    }
}

/// A bullet position farther than the margin outside the arena on some
/// axis.
pub open spec fn bullet_out(p: Vec2) -> bool {
    ||| p.x < -BULLET_MARGIN
    ||| p.x > ARENA_W + BULLET_MARGIN
    ||| p.y < -BULLET_MARGIN
    ||| p.y > ARENA_H + BULLET_MARGIN
}

/// One live bullet advanced by `d`: moved by its velocity, aged, and
/// marked dead once expired or out of bounds. A dead bullet is left
/// alone.
pub open spec fn step_bullet_s(b: Bullet, d: int) -> Bullet {
    if !b.alive {
        b
    } else {
        let np = Vec2 {
            x: (b.p.x + scale1(b.v.x as int, d)) as i64,
            y: (b.p.y + scale1(b.v.y as int, d)) as i64,
        };
        let nlife = (b.life - d) as i64;
        Bullet { p: np, v: b.v, r: b.r, life: nlife, alive: nlife > 0 && !bullet_out(np) }
    }
}

/// All bullets advanced by `d`.
pub open spec fn step_bullets_s(bs: Seq<Bullet>, d: int) -> Seq<Bullet> {
    bs.map_values(|b: Bullet| step_bullet_s(b, d))
}

/// What a cull keeps of the bullets: the live ones, in order.
pub open spec fn live_bullets(bs: Seq<Bullet>) -> Seq<Bullet> {
    bs.filter(|b: Bullet| b.alive)
}

/// What a cull keeps of the enemies: the live ones, in order.
pub open spec fn live_enemies(es: Seq<Enemy>) -> Seq<Enemy> {
    es.filter(|e: Enemy| e.alive)
}

/// Squared distance between two points.
pub open spec fn dist2(a: Vec2, b: Vec2) -> int {
    (a.x - b.x) * (a.x - b.x) + (a.y - b.y) * (a.y - b.y)
}

/// Two circles overlap when their squared center distance does not
/// exceed the square of the sum of their radii.
pub open spec fn circles_overlap(a: Vec2, ra: int, b: Vec2, rb: int) -> bool {
    dist2(a, b) <= (ra + rb) * (ra + rb)
}

/// The x coordinate of the normalized direction from `from` to `to`
/// (zero when the points coincide).
pub open spec fn dir1_x(from: Vec2, to: Vec2) -> int {
    let dx = to.x - from.x;
    let dy = to.y - from.y;
    let l2 = dx * dx + dy * dy;
    if l2 == 0 {
        0
    } else {
        norm1(dx, sqrt_of(l2))
    }
}

/// The y coordinate of the normalized direction from `from` to `to`.
pub open spec fn dir1_y(from: Vec2, to: Vec2) -> int {
    let dx = to.x - from.x;
    let dy = to.y - from.y;
    let l2 = dx * dx + dy * dy;
    if l2 == 0 {
        0
    } else {
        norm1(dy, sqrt_of(l2))
    }
}

/// One live enemy advanced by `d`: velocity re-aimed straight at the
/// player, position advanced by it. A dead enemy is left alone.
pub open spec fn step_enemy_s(e: Enemy, pp: Vec2, d: int) -> Enemy {
    if !e.alive {
        e
    } else {
        let vx = scale1(dir1_x(e.p, pp), e.speed as int);
        let vy = scale1(dir1_y(e.p, pp), e.speed as int);
        Enemy {
            p: Vec2 { x: (e.p.x + scale1(vx, d)) as i64, y: (e.p.y + scale1(vy, d)) as i64 },
            v: Vec2 { x: vx as i64, y: vy as i64 },
            ..e
        }
    }
}

/// All enemies advanced by `d` in pursuit of the player at `pp`.
pub open spec fn pursue_s(es: Seq<Enemy>, pp: Vec2, d: int) -> Seq<Enemy> {
    es.map_values(|e: Enemy| step_enemy_s(e, pp, d))
}

/// A live enemy overlapping the player, pushed one nudge away from the
/// player along the collision normal; any other enemy is left alone.
pub open spec fn nudged_enemy_s(e: Enemy, pp: Vec2, pr: int) -> Enemy {
    if e.alive && circles_overlap(e.p, e.r as int, pp, pr) {
        Enemy {
            p: Vec2 {
                x: (e.p.x + scale1(dir1_x(pp, e.p), NUDGE_DIST as int)) as i64,
                y: (e.p.y + scale1(dir1_y(pp, e.p), NUDGE_DIST as int)) as i64,
            },
            ..e
        }
    } else {
        e
    }
}

/// Every enemy after the player-contact pass.
pub open spec fn nudge_all_s(es: Seq<Enemy>, pp: Vec2, pr: int) -> Seq<Enemy> {
    es.map_values(|e: Enemy| nudged_enemy_s(e, pp, pr))
}

/// How many of the first `n` enemies are alive and overlap the player.
pub open spec fn contact_count(es: Seq<Enemy>, pp: Vec2, pr: int, n: int) -> int
    decreases n,
{
    if n <= 0 {
        0
    } else {
        contact_count(es, pp, pr, n - 1) + if es[n - 1].alive && circles_overlap(
            es[n - 1].p,
            es[n - 1].r as int,
            pp,
            pr,
        ) {
            1int
        } else {
            0int
        }
    }
}

/// The contact count over a prefix is between zero and the prefix
/// length.
pub proof fn lemma_contact_count_bounds(es: Seq<Enemy>, pp: Vec2, pr: int, n: int)
    requires
        0 <= n,
    ensures
        0 <= contact_count(es, pp, pr, n) <= n,
    decreases n,
{
    if n > 0 {
        lemma_contact_count_bounds(es, pp, pr, n - 1);
    }
}

/// One enemy against the first `k` bullets, in order: each live
/// overlapping bullet dies and costs the enemy one hit point; the kill
/// (if any) lowers the live count and awards the kill score. Returns
/// the enemy, the bullets, the live count and the score after the scan.
pub open spec fn strike_bullets(e: Enemy, bs: Seq<Bullet>, k: int, a: int, s: int) -> (
    Enemy,
    Seq<Bullet>,
    int,
    int,
)
    decreases k,
{
    if k <= 0 {
        (e, bs, a, s)
    } else {
        let r = strike_bullets(e, bs, k - 1, a, s);
        let e1 = r.0;
        let b = r.1[k - 1];
        if e1.alive && b.alive && circles_overlap(e1.p, e1.r as int, b.p, b.r as int) {
            let bs2 = r.1.update(k - 1, Bullet { alive: false, ..b });
            if e1.hp - 1 <= 0 {
                (Enemy { hp: (e1.hp - 1) as i64, alive: false, ..e1 }, bs2, r.2 - 1, scored(r.3))
            } else {
                (Enemy { hp: (e1.hp - 1) as i64, ..e1 }, bs2, r.2, r.3)
            }
        } else {
            r
        }
    }
}

/// The first `j` enemies each scanned against every bullet, in order,
/// threading the bullets, the live count and the score through.
pub open spec fn collide_all(es: Seq<Enemy>, bs: Seq<Bullet>, j: int, a: int, s: int) -> (
    Seq<Enemy>,
    Seq<Bullet>,
    int,
    int,
)
    decreases j,
{
    if j <= 0 {
        (es, bs, a, s)
    } else {
        let r = collide_all(es, bs, j - 1, a, s);
        let inner = strike_bullets(r.0[j - 1], r.1, r.1.len() as int, r.2, r.3);
        (r.0.update(j - 1, inner.0), inner.1, inner.2, inner.3)
    }
}

/// How many of the first `n` enemies are alive.
pub open spec fn alive_count(es: Seq<Enemy>, n: int) -> int
    decreases n,
{
    if n <= 0 {
        0
    } else {
        alive_count(es, n - 1) + if es[n - 1].alive {
            1int
        } else {
            0int
        }
    }
}

/// The alive count over a prefix is between zero and the prefix length.
pub proof fn lemma_alive_count_bounds(es: Seq<Enemy>, n: int)
    requires
        0 <= n,
    ensures
        0 <= alive_count(es, n) <= n,
    decreases n,
{
    if n > 0 {
        lemma_alive_count_bounds(es, n - 1);
    }
}

/// The alive count over a prefix reads only that prefix.
pub proof fn lemma_alive_count_agree(s1: Seq<Enemy>, s2: Seq<Enemy>, n: int)
    requires
        0 <= n,
        forall|i: int| 0 <= i < n ==> s1[i] == s2[i],
    ensures
        alive_count(s1, n) == alive_count(s2, n),
    decreases n,
{
    if n > 0 {
        lemma_alive_count_agree(s1, s2, n - 1);
    }
}

/// The alive count over a prefix is the length the cull keeps of it.
pub proof fn lemma_alive_count_is_filter(es: Seq<Enemy>, n: int)
    requires
        0 <= n <= es.len(),
    ensures
        alive_count(es, n) == live_enemies(es.subrange(0, n)).len(),
    decreases n,
{
    reveal_with_fuel(Seq::filter, 2);
    if n == 0 {
        assert(es.subrange(0, 0) =~= Seq::<Enemy>::empty());
    } else {
        lemma_alive_count_is_filter(es, n - 1);
        assert(es.subrange(0, n).drop_last() =~= es.subrange(0, n - 1));
        assert(es.subrange(0, n).last() == es[n - 1]);
    }
}

/// What one enemy's scan of the bullets does, element by element:
/// bullets can only die, the enemy can only lose hit points, the live
/// count drops exactly on a kill, and the score never leaves its range.
pub proof fn lemma_strike_props(e: Enemy, bs: Seq<Bullet>, k: int, a: int, s: int)
    requires
        0 <= k <= bs.len(),
        e.alive ==> e.hp >= 1,
        0 <= s <= SCORE_CAP,
    ensures
        ({
            let r = strike_bullets(e, bs, k, a, s);
            &&& r.1.len() == bs.len()
            &&& forall|i: int|
                0 <= i < bs.len() ==> ((#[trigger] r.1[i]).p == bs[i].p && r.1[i].v == bs[i].v
                    && r.1[i].r == bs[i].r && r.1[i].life == bs[i].life && (r.1[i].alive
                    ==> bs[i].alive))
            &&& forall|i: int| k <= i < bs.len() ==> #[trigger] r.1[i] == bs[i]
            &&& r.0.p == e.p && r.0.v == e.v && r.0.r == e.r && r.0.speed == e.speed
            &&& r.0.hp <= e.hp
            &&& (e.alive ==> r.0.hp >= 0)
            &&& (r.0.alive ==> r.0.hp >= 1 && e.alive)
            &&& (e.alive ==> (r.0.alive <==> r.0.hp >= 1))
            &&& r.2 == a - (if e.alive && !r.0.alive {
                1int
            } else {
                0int
            })
            &&& s <= r.3 <= SCORE_CAP
            &&& (!e.alive ==> r == (e, bs, a, s))
        }),
    decreases k,
{
    if k > 0 {
        lemma_strike_props(e, bs, k - 1, a, s);
    }
}

/// What the whole collision pass does: enemies keep their motion state
/// and can only lose hit points, a dead enemy is exactly one out of
/// hit points, bullets can only die, and the live count tracks the
/// processed prefix.
pub proof fn lemma_collide_props(es: Seq<Enemy>, bs: Seq<Bullet>, j: int, a: int, s: int)
    requires
        0 <= j <= es.len(),
        forall|i: int| 0 <= i < es.len() ==> (#[trigger] es[i]).alive && es[i].hp >= 1,
        a == es.len(),
        0 <= s <= SCORE_CAP,
    ensures
        ({
            let r = collide_all(es, bs, j, a, s);
            &&& r.0.len() == es.len()
            &&& forall|i: int| j <= i < es.len() ==> #[trigger] r.0[i] == es[i]
            &&& forall|i: int|
                0 <= i < es.len() ==> ((#[trigger] r.0[i]).p == es[i].p && r.0[i].v == es[i].v
                    && r.0[i].r == es[i].r && r.0[i].speed == es[i].speed && r.0[i].hp
                    <= es[i].hp && r.0[i].hp >= 0 && (r.0[i].alive <==> r.0[i].hp >= 1))
            &&& r.1.len() == bs.len()
            &&& forall|i: int|
                0 <= i < bs.len() ==> ((#[trigger] r.1[i]).p == bs[i].p && r.1[i].v == bs[i].v
                    && r.1[i].r == bs[i].r && r.1[i].life == bs[i].life && (r.1[i].alive
                    ==> bs[i].alive))
            &&& r.2 == es.len() - j + alive_count(r.0, j)
            &&& s <= r.3 <= SCORE_CAP
        }),
    decreases j,
{
    if j > 0 {
        lemma_collide_props(es, bs, j - 1, a, s);
        let r1 = collide_all(es, bs, j - 1, a, s);
        lemma_strike_props(r1.0[j - 1], r1.1, r1.1.len() as int, r1.2, r1.3);
        let inner = strike_bullets(r1.0[j - 1], r1.1, r1.1.len() as int, r1.2, r1.3);
        let r = collide_all(es, bs, j, a, s);
        lemma_alive_count_agree(r.0, r1.0, j - 1);
        assert(alive_count(r.0, j) == alive_count(r.0, j - 1) + if r.0[j - 1].alive {
            1int
        } else {
            0int
        });
    }
}

/// The x component of the key-held movement direction, before
/// normalization: opposing keys cancel.
pub open spec fn key_dx(input: Input) -> int {
    (if input.a {
        -(SCALE as int)
    } else {
        0int
    }) + (if input.d {
        SCALE as int
    } else {
        0int
    })
}

/// The y component of the key-held movement direction.
pub open spec fn key_dy(input: Input) -> int {
    (if input.w {
        -(SCALE as int)
    } else {
        0int
    }) + (if input.s {
        SCALE as int
    } else {
        0int
    })
}

/// Where the player stands after moving for `d` along the normalized
/// key direction at its speed, clamped into the arena inset by its
/// radius.
pub open spec fn moved_pos(p: Player, input: Input, d: int) -> Vec2 {
    let kx = key_dx(input);
    let ky = key_dy(input);
    let l2 = kx * kx + ky * ky;
    let ux = if l2 == 0 {
        0int
    } else {
        norm1(kx, sqrt_of(l2))
    };
    let uy = if l2 == 0 {
        0int
    } else {
        norm1(ky, sqrt_of(l2))
    };
    let step = sdiv(p.speed * d, SCALE as int);
    Vec2 {
        x: clamp1(p.p.x + scale1(ux, step), p.r as int, ARENA_W as int) as i64,
        y: clamp1(p.p.y + scale1(uy, step), p.r as int, ARENA_H as int) as i64,
    }
}

/// The bullet a shot from a player at `pp` with radius `pr` toward
/// `aim` creates: spawned at the player's edge plus the muzzle gap,
/// flying at bullet speed, full lifetime.
pub open spec fn fired_bullet_s(pp: Vec2, pr: int, aim: Vec2) -> Bullet {
    let ux = dir1_x(pp, aim);
    let uy = dir1_y(pp, aim);
    Bullet {
        p: Vec2 {
            x: (pp.x + scale1(ux, pr + MUZZLE_GAP)) as i64,
            y: (pp.y + scale1(uy, pr + MUZZLE_GAP)) as i64,
        },
        v: Vec2 { x: scale1(ux, BULLET_SPEED as int) as i64, y: scale1(uy, BULLET_SPEED as int) as i64 },
        r: BULLET_R,
        life: BULLET_LIFE,
        alive: true,
    }
}

/// A cull of bullets that all satisfy [`bullet_ok`] keeps only live,
/// still-ok bullets.
pub proof fn lemma_live_bullets_props(bs: Seq<Bullet>)
    requires
        forall|i: int| 0 <= i < bs.len() ==> bullet_ok(#[trigger] bs[i]),
    ensures
        live_bullets(bs).len() <= bs.len(),
        forall|i: int|
            0 <= i < live_bullets(bs).len() ==> bullet_ok(#[trigger] live_bullets(bs)[i])
                && live_bullets(bs)[i].alive,
    decreases bs.len(),
{
    reveal_with_fuel(Seq::filter, 2);
    if bs.len() > 0 {
        lemma_live_bullets_props(bs.drop_last());
        let f = live_bullets(bs);
        let fd = live_bullets(bs.drop_last());
        assert forall|i: int| 0 <= i < f.len() implies bullet_ok(#[trigger] f[i])
            && f[i].alive by {
            if bs.last().alive {
                assert(f == fd.push(bs.last()));
                if i < fd.len() {
                    assert(f[i] == fd[i]);
                }
            } else {
                assert(f == fd);
            }
        }
    }
}

/// A cull of enemies that are all well-formed keeps only live,
/// still-well-formed enemies.
pub proof fn lemma_live_enemies_props(es: Seq<Enemy>)
    requires
        forall|i: int| 0 <= i < es.len() ==> enemy_wf(#[trigger] es[i]),
    ensures
        live_enemies(es).len() <= es.len(),
        forall|i: int|
            0 <= i < live_enemies(es).len() ==> enemy_wf(#[trigger] live_enemies(es)[i])
                && live_enemies(es)[i].alive,
    decreases es.len(),
{
    reveal_with_fuel(Seq::filter, 2);
    if es.len() > 0 {
        lemma_live_enemies_props(es.drop_last());
        let f = live_enemies(es);
        let fd = live_enemies(es.drop_last());
        assert forall|i: int| 0 <= i < f.len() implies enemy_wf(#[trigger] f[i])
            && f[i].alive by {
            if es.last().alive {
                assert(f == fd.push(es.last()));
                if i < fd.len() {
                    assert(f[i] == fd[i]);
                }
            } else {
                assert(f == fd);
            }
        }
    }
}

/// A bullet the update passes can work on: well-formed, and inside
/// bounds with lifetime left while it is alive.
pub open spec fn bullet_ok(b: Bullet) -> bool {
    &&& bullet_wf(b)
    &&& (b.alive ==> b.life > 0 && !bullet_out(b.p))
}

/// A bullet's fields are in the ranges the arithmetic is sized for.
pub open spec fn bullet_wf(b: Bullet) -> bool {
    &&& b.r == BULLET_R
    &&& b.life <= BULLET_LIFE
    &&& b.v.bounded(BULLET_SPEED as int)
    &&& b.p.bounded(2_000_000)
}

/// An enemy's fields are in the ranges the arithmetic is sized for,
/// and it has hit points while alive.
pub open spec fn enemy_wf(e: Enemy) -> bool {
    &&& e.r == ENEMY_R
    &&& ENEMY_BASE_SPEED <= e.speed <= ENEMY_SPEED_MAX
    &&& e.p.bounded(ENT_BOUND as int)
    &&& e.v.bounded(ENEMY_SPEED_MAX as int)
    &&& (e.alive ==> e.hp >= 1)
}

/// The player's configuration is the fixed one, its position is inside
/// the arena inset by its radius, and its numbers are in range.
pub open spec fn player_wf(p: Player) -> bool {
    &&& p.r == 12_000
    &&& p.speed == 300_000
    &&& p.shoot_cd == 120
    &&& p.r <= p.p.x <= ARENA_W - p.r
    &&& p.r <= p.p.y <= ARENA_H - p.r
    &&& p.hp <= 100
    &&& p.hp > -1_000_000
    &&& SHOOT_T_FLOOR <= p.shoot_t <= p.shoot_cd
}

/// A point spawned just outside one of the four arena edges: offset by
/// exactly the spawn margin on one axis, inside the arena extent on the
/// other.
pub open spec fn spawn_pos_ok(p: Vec2) -> bool {
    ||| (p.y == -SPAWN_MARGIN && 0 <= p.x < ARENA_W)
    ||| (p.x == ARENA_W + SPAWN_MARGIN && 0 <= p.y < ARENA_H)
    ||| (p.y == ARENA_H + SPAWN_MARGIN && 0 <= p.x < ARENA_W)
    ||| (p.x == -SPAWN_MARGIN && 0 <= p.y < ARENA_H)
}

/// What every enemy spawned for `wave` looks like, wherever the random
/// source put it along its edge.
pub open spec fn spawned_enemy_ok(e: Enemy, wave: u32) -> bool {
    &&& spawn_pos_ok(e.p)
    &&& e.v == (Vec2 { x: 0i64, y: 0i64 })
    &&& e.r == ENEMY_R
    &&& e.speed == ENEMY_BASE_SPEED + ENEMY_SPEED_PER_WAVE * (if wave < 1 {
        1int
    } else {
        wave as int
    })
    &&& e.hp == ENEMY_BASE_HP + wave as int / 2
    &&& e.alive == true
}

/// What a tick does in the game-over phase: a held confirm key resets
/// to a fresh game; otherwise nothing changes.
pub open spec fn game_over_tick(g: Game, h: Game, input: Input) -> bool {
    if input.key_enter {
        h.is_fresh()
    } else {
        &&& h.player == g.player
        &&& h.bullets@ == g.bullets@
        &&& h.enemies@ == g.enemies@
        &&& h.wave == g.wave
        &&& h.enemies_alive == g.enemies_alive
        &&& h.score == g.score
        &&& h.phase == g.phase
        &&& h.intermission == g.intermission
        &&& h.rng == g.rng
    }
}

/// What a tick does in intermission: the player moves, bullets fly and
/// expire, the countdown falls by the step, and when it runs out the
/// next wave spawns and combat begins.
pub open spec fn intermission_tick(g: Game, h: Game, d: int, input: Input) -> bool {
    &&& h.player == (Player { p: moved_pos(g.player, input, d), ..g.player })
    &&& h.bullets@ == live_bullets(step_bullets_s(g.bullets@, d))
    &&& h.score == g.score
    &&& h.intermission == g.intermission - d
    &&& (g.intermission - d > 0 ==> {
        &&& h.phase == Phase::Intermission
        &&& h.wave == g.wave
        &&& h.enemies@ == live_enemies(g.enemies@)
        &&& h.enemies_alive == g.enemies_alive
    })
    &&& (g.intermission - d <= 0 ==> {
        &&& h.phase == Phase::Combat
        &&& h.wave == g.wave + 1
        &&& h.enemies@.len() == WAVE_BASE + WAVE_PER * h.wave
        &&& h.enemies_alive == WAVE_BASE + WAVE_PER * h.wave
        &&& (forall|i: int|
            0 <= i < h.enemies@.len() ==> spawned_enemy_ok(#[trigger] h.enemies@[i], h.wave))
    })
}

/// Whether a combat tick of `d` under `input` fires a shot: the fire
/// button is held, the cooldown has run out, and the aim point does
/// not coincide with the player's (moved) position.
pub open spec fn fired_in(g: Game, d: int, input: Input) -> bool {
    let np = moved_pos(g.player, input, d);
    let t1 = cooled(g.player.shoot_t as int, d);
    let dx = input.mouse_pos.x - np.x;
    let dy = input.mouse_pos.y - np.y;
    input.mouse_left && t1 <= 0 && dx * dx + dy * dy != 0
}

/// What a tick does in combat: the player moves and takes contact
/// damage, a shot may be fired, bullets and enemies advance, the
/// collision pass runs, the dead are culled, and a cleared wave opens
/// the next intermission — unless the contact damage already ended the
/// game this very tick.
pub open spec fn combat_tick(g: Game, h: Game, d: int, input: Input) -> bool {
    let np = moved_pos(g.player, input, d);
    let pr = g.player.r as int;
    let cnt = contact_count(g.enemies@, np, pr, g.enemies@.len() as int);
    let hp1 = g.player.hp - CONTACT_DAMAGE * cnt;
    let es1 = nudge_all_s(g.enemies@, np, pr);
    let ph1 = if hp1 <= 0 {
        Phase::GameOver
    } else {
        Phase::Combat
    };
    let t1 = cooled(g.player.shoot_t as int, d);
    let fired = fired_in(g, d, input);
    let t2 = if fired {
        g.player.shoot_cd as int
    } else {
        t1
    };
    let bs1 = if fired {
        g.bullets@.push(fired_bullet_s(np, pr, input.mouse_pos))
    } else {
        g.bullets@
    };
    let bs2 = step_bullets_s(bs1, d);
    let es2 = pursue_s(es1, np, d);
    let r = collide_all(es2, bs2, es2.len() as int, g.enemies_alive as int, g.score as int);
    let cleared = ph1 == Phase::Combat && r.2 == 0;
    &&& h.player == (Player { p: np, hp: hp1 as i64, shoot_t: t2 as i64, ..g.player })
    &&& h.bullets@ == live_bullets(r.1)
    &&& h.enemies@ == live_enemies(r.0)
    &&& h.enemies_alive as int == r.2
    &&& h.score as int == r.3
    &&& h.wave == g.wave
    &&& h.phase == (if cleared {
        Phase::Intermission
    } else {
        ph1
    })
    &&& h.intermission == (if cleared {
        WAVE_COUNTDOWN as int
    } else {
        g.intermission as int
    })
}

/// Law: a shot resets the cooldown to the full cooldown duration, and
/// a second fire attempt less than that duration later fires nothing,
/// whatever it aims at.
pub proof fn lemma_fire_rate(g1: Game, g2: Game, d1: int, d2: int, i1: Input, i2: Input)
    requires
        player_wf(g1.player),
        combat_tick(g1, g2, d1, i1),
        fired_in(g1, d1, i1),
        0 <= d2 < g2.player.shoot_cd,
    ensures
        g2.player.shoot_t == g2.player.shoot_cd,
        !fired_in(g2, d2, i2),
{
}

/// One enemy's scan never changes how many bullets there are.
pub proof fn lemma_strike_bullets_len(e: Enemy, bs: Seq<Bullet>, k: int, a: int, s: int)
    requires
        0 <= k <= bs.len(),
    ensures
        strike_bullets(e, bs, k, a, s).1.len() == bs.len(),
    decreases k,
{
    if k > 0 {
        lemma_strike_bullets_len(e, bs, k - 1, a, s);
    }
}

/// The collision pass never changes how many bullets or enemies there
/// are; only the cull does.
pub proof fn lemma_collide_len(es: Seq<Enemy>, bs: Seq<Bullet>, j: int, a: int, s: int)
    requires
        0 <= j <= es.len(),
    ensures
        collide_all(es, bs, j, a, s).1.len() == bs.len(),
        collide_all(es, bs, j, a, s).0.len() == es.len(),
    decreases j,
{
    if j > 0 {
        lemma_collide_len(es, bs, j - 1, a, s);
        let r = collide_all(es, bs, j - 1, a, s);
        lemma_strike_bullets_len(r.0[j - 1], r.1, r.1.len() as int, r.2, r.3);
    }
}

/// A cull never grows a collection.
pub proof fn lemma_live_bullets_len(bs: Seq<Bullet>)
    ensures
        live_bullets(bs).len() <= bs.len(),
    decreases bs.len(),
{
    reveal_with_fuel(Seq::filter, 2);
    if bs.len() > 0 {
        lemma_live_bullets_len(bs.drop_last());
    }
}

/// Law: a fire attempt whose aim point coincides with the player's
/// position spawns no bullet — the bullet collection cannot grow that
/// tick — and does not reset the cooldown; the cooldown simply keeps
/// falling.
pub proof fn lemma_fire_aim_at_self(g: Game, h: Game, d: int, input: Input)
    requires
        0 <= d,
        combat_tick(g, h, d, input),
        input.mouse_pos == moved_pos(g.player, input, d),
    ensures
        h.player.shoot_t as int == cooled(g.player.shoot_t as int, d),
        h.bullets@.len() <= g.bullets@.len(),
{
    let np0 = moved_pos(g.player, input, d);
    let es2 = pursue_s(nudge_all_s(g.enemies@, np0, g.player.r as int), np0, d);
    let bs2 = step_bullets_s(g.bullets@, d);
    lemma_collide_len(es2, bs2, es2.len() as int, g.enemies_alive as int, g.score as int);
    lemma_live_bullets_len(
        collide_all(es2, bs2, es2.len() as int, g.enemies_alive as int, g.score as int).1,
    );
    let np = moved_pos(g.player, input, d);
    let dx = input.mouse_pos.x - np.x;
    let dy = input.mouse_pos.y - np.y;
    assert(dx == 0 && dy == 0);
    assert(dx * dx + dy * dy == 0) by (nonlinear_arith)
        requires
            dx == 0,
            dy == 0,
    ;
    assert(!fired_in(g, d, input));
    let t1 = cooled(g.player.shoot_t as int, d);
    assert(SHOOT_T_FLOOR <= t1);
    assert(t1 == SHOOT_T_FLOOR || t1 == g.player.shoot_t - d);
    assert(i64::MIN <= t1 <= i64::MAX);
    assert(h.player.shoot_t == t1 as i64);
    assert(h.player.shoot_t as int == t1);
}

/// Law: a live bullet whose advance leaves the arena by more than the
/// margin on some axis, or exhausts its lifetime, is dead after the
/// step, and the next cull keeps no such bullet.
pub proof fn lemma_bullet_cull(bs: Seq<Bullet>, d: int, i: int)
    requires
        0 <= d <= DT_MAX,
        0 <= i < bs.len(),
        forall|k: int| 0 <= k < bs.len() ==> bullet_ok(#[trigger] bs[k]),
        bs[i].alive,
        bullet_out(step_bullet_s(bs[i], d).p) || bs[i].life - d <= 0,
    ensures
        !step_bullet_s(bs[i], d).alive,
        forall|j: int|
            0 <= j < live_bullets(step_bullets_s(bs, d)).len() ==> #[trigger] live_bullets(
                step_bullets_s(bs, d),
            )[j] != step_bullet_s(bs[i], d),
{
    assert(!step_bullet_s(bs[i], d).alive);
    let stepped = step_bullets_s(bs, d);
    assert forall|k: int| 0 <= k < stepped.len() implies bullet_ok(#[trigger] stepped[k]) by {
        assert(stepped[k] == step_bullet_s(bs[k], d));
        lemma_step_bullet_ok(bs[k], d);
    }
    lemma_live_bullets_props(stepped);
}

/// A well-formed bullet stays well-formed across one step.
pub proof fn lemma_step_bullet_ok(b: Bullet, d: int)
    requires
        bullet_ok(b),
        0 <= d <= DT_MAX,
    ensures
        bullet_ok(step_bullet_s(b, d)),
{
    if b.alive {
        lemma_scale1_mag(b.v.x as int, d, BULLET_SPEED as int, DT_MAX as int);
        lemma_scale1_mag(b.v.y as int, d, BULLET_SPEED as int, DT_MAX as int);
    }
}

impl Game {
    /// The state a fresh game starts in (the random source aside).
    pub open spec fn is_fresh(self) -> bool {
        &&& self.player == Player::fresh()
        &&& self.bullets@.len() == 0
        &&& self.enemies@.len() == 0
        &&& self.wave == 0
        &&& self.enemies_alive == 0
        &&& self.score == 0
        &&& self.phase == Phase::Intermission
        &&& self.intermission == START_COUNTDOWN
    }

    /// Well-formedness: what holds of the state between any two ticks.
    /// Every constructor establishes it and [`Game::update`] preserves
    /// it.
    pub open spec fn wf(self) -> bool {
        &&& player_wf(self.player)
        &&& forall|i: int|
            0 <= i < self.bullets@.len() ==> bullet_ok(#[trigger] self.bullets@[i])
                && self.bullets@[i].alive
        &&& forall|i: int|
            0 <= i < self.enemies@.len() ==> enemy_wf(#[trigger] self.enemies@[i])
                && self.enemies@[i].alive
        &&& self.wave <= WAVE_LIMIT
        &&& self.enemies@.len() == self.enemies_alive
        &&& self.enemies_alive <= WAVE_BASE + WAVE_PER * self.wave
        &&& 0 <= self.score <= SCORE_CAP
        &&& -1_000_000 <= self.intermission <= WAVE_COUNTDOWN
        &&& (self.phase == Phase::Intermission ==> 0 < self.intermission
            && self.enemies@.len() == 0)
        &&& (self.phase != Phase::GameOver ==> self.player.hp >= 1)
    }

    /// A fresh game with a deterministically seeded random source, so
    /// that spawn positions are reproducible.
    pub fn new_seeded(seed: u64) -> (g: Game)
        ensures
            g.is_fresh(),
            g.wf(),
    {
        Game {
            rng: rng_from_seed(seed),
            player: Player::default(),
            bullets: Vec::new(),
            enemies: Vec::new(),
            wave: 0,
            enemies_alive: 0,
            score: 0,
            phase: Phase::Intermission,
            intermission: START_COUNTDOWN,
        }
    }

    /// Reinitialize to a fresh game; the random source is reseeded
    /// from the operating system.
    pub fn reset(&mut self)
        ensures
            final(self).is_fresh(),
            final(self).wf(),
    {
        *self = Game::default();
    }

    /// One enemy for the current wave, at a random point just outside
    /// one of the four arena edges. Only the random source changes.
    fn make_enemy(&mut self) -> (e: Enemy)
        requires
            1 <= old(self).wave <= WAVE_LIMIT,
        ensures
            spawned_enemy_ok(e, old(self).wave),
            final(self).player == old(self).player,
            final(self).bullets == old(self).bullets,
            final(self).enemies == old(self).enemies,
            final(self).wave == old(self).wave,
            final(self).enemies_alive == old(self).enemies_alive,
            final(self).score == old(self).score,
            final(self).phase == old(self).phase,
            final(self).intermission == old(self).intermission,
    {
        let edge = rng_range(&mut self.rng, 0, 4);
        let p = if edge == 0 {
            Vec2 { x: rng_range(&mut self.rng, 0, ARENA_W), y: -SPAWN_MARGIN }
        } else if edge == 1 {
            Vec2 { x: ARENA_W + SPAWN_MARGIN, y: rng_range(&mut self.rng, 0, ARENA_H) }
        } else if edge == 2 {
            Vec2 { x: rng_range(&mut self.rng, 0, ARENA_W), y: ARENA_H + SPAWN_MARGIN }
        } else {
            Vec2 { x: -SPAWN_MARGIN, y: rng_range(&mut self.rng, 0, ARENA_H) }
        };
        let wv: i64 = if self.wave < 1 {
            1
        } else {
            self.wave as i64
        };
        Enemy {
            p,
            v: Vec2::zero(),
            r: ENEMY_R,
            speed: ENEMY_BASE_SPEED + ENEMY_SPEED_PER_WAVE * wv,
            hp: ENEMY_BASE_HP + (self.wave / 2) as i64,
            alive: true,
        }
    }

    /// Start the next wave: bump the wave number, replace the enemy
    /// collection with the new wave's spawns, and enter combat.
    pub fn begin_wave(&mut self)
        requires
            old(self).wave < WAVE_LIMIT,
        ensures
            final(self).wave == old(self).wave + 1,
            final(self).enemies@.len() == WAVE_BASE + WAVE_PER * final(self).wave,
            final(self).enemies_alive == WAVE_BASE + WAVE_PER * final(self).wave,
            forall|i: int|
                0 <= i < final(self).enemies@.len() ==> spawned_enemy_ok(
                    #[trigger] final(self).enemies@[i],
                    final(self).wave,
                ),
            final(self).phase == Phase::Combat,
            final(self).player == old(self).player,
            final(self).bullets == old(self).bullets,
            final(self).score == old(self).score,
            final(self).intermission == old(self).intermission,
    {
        self.wave = self.wave + 1;
        let to_spawn: usize = (WAVE_BASE + WAVE_PER * self.wave) as usize;
        self.enemies.clear();
        let mut k: usize = 0;
        #[verifier::loop_isolation(false)]
        while k < to_spawn
            invariant
                k == self.enemies@.len(),
                k <= to_spawn,
                forall|i: int|
                    0 <= i < k ==> spawned_enemy_ok(#[trigger] self.enemies@[i], self.wave),
                self.wave == old(self).wave + 1,
                self.player == old(self).player,
                self.bullets == old(self).bullets,
                self.score == old(self).score,
                self.phase == old(self).phase,
                self.enemies_alive == old(self).enemies_alive,
                self.intermission == old(self).intermission,
            decreases to_spawn - k,
        {
            let e = self.make_enemy();
            self.enemies.push(e);
            k = k + 1;
        }
        self.enemies_alive = to_spawn as u32;
        self.phase = Phase::Combat;
    }
    /// Move the player by the held keys for `dt`, clamped into the
    /// arena, then resolve contact with every live enemy: each overlap
    /// costs hit points and pushes the enemy one nudge away, and the
    /// phase turns to game over the moment hit points run out.
    #[verifier::loop_isolation(false)]
    #[verifier::rlimit(100)]
    pub fn update_player(&mut self, dt: i64, input: &Input)
        requires
            0 <= dt <= DT_MAX,
            player_wf(old(self).player),
            old(self).player.hp >= 1,
            old(self).enemies@.len() <= MAX_ENEMIES,
            forall|i: int|
                0 <= i < old(self).enemies@.len() ==> enemy_wf(#[trigger] old(self).enemies@[i]),
        ensures
            ({
                let np = moved_pos(old(self).player, *input, dt as int);
                let pr = old(self).player.r as int;
                let cnt = contact_count(old(self).enemies@, np, pr, old(self).enemies@.len() as int);
                let nhp = old(self).player.hp - CONTACT_DAMAGE * cnt;
                &&& final(self).player == (Player { p: np, hp: nhp as i64, ..old(self).player })
                &&& final(self).enemies@ == nudge_all_s(old(self).enemies@, np, pr)
                &&& final(self).phase == (if nhp <= 0 {
                    Phase::GameOver
                } else {
                    old(self).phase
                })
            }),
            player_wf(final(self).player),
            final(self).player.hp >= old(self).player.hp - CONTACT_DAMAGE * old(self).enemies@.len(),
            forall|i: int|
                0 <= i < final(self).enemies@.len() ==> enemy_wf(#[trigger] final(self).enemies@[i]),
            final(self).bullets@ == old(self).bullets@,
            final(self).wave == old(self).wave,
            final(self).enemies_alive == old(self).enemies_alive,
            final(self).score == old(self).score,
            final(self).intermission == old(self).intermission,
            final(self).rng == old(self).rng,
    {
        let mut kx: i64 = 0;
        let mut ky: i64 = 0;
        if input.w {
            ky = ky - SCALE;
        }
        if input.s {
            ky = ky + SCALE;
        }
        if input.a {
            kx = kx - SCALE;
        }
        if input.d {
            kx = kx + SCALE;
        }
        let kv = Vec2 { x: kx, y: ky };
        proof {
            assert(kx as int == key_dx(*input));
            assert(ky as int == key_dy(*input));
            if kv.len2_spec() != 0 {
                lemma_norm_bounds(kx as int, ky as int);
            }
        }
        let dir = kv.norm();
        let step = self.player.speed * dt / SCALE;
        proof {
            crate::math::lemma_sdiv_mag(
                old(self).player.speed as int * dt as int,
                SCALE as int,
                15_000_000,
            );
            assert(step as int == sdiv(old(self).player.speed as int * dt as int, SCALE as int));
            lemma_scale1_mag(dir.x as int, step as int, SCALE as int, 15_000);
            lemma_scale1_mag(dir.y as int, step as int, SCALE as int, 15_000);
        }
        let delta = dir.mul(step);
        let np0 = self.player.p.add(delta);
        let np = clamp_rect(np0, self.player.r);
        self.player.p = np;
        proof {
            assert(self.player.p == moved_pos(old(self).player, *input, dt as int));
        }
        self.resolve_contacts();
    }

    /// Resolve contact between the player where it stands and every
    /// live enemy: each overlap costs the player hit points and pushes
    /// that enemy one nudge away from the player, and the phase turns
    /// to game over the moment hit points run out.
    #[verifier::loop_isolation(false)]
    #[verifier::rlimit(100)]
    fn resolve_contacts(&mut self)
        requires
            player_wf(old(self).player),
            old(self).player.hp >= 1,
            old(self).enemies@.len() <= MAX_ENEMIES,
            forall|i: int|
                0 <= i < old(self).enemies@.len() ==> enemy_wf(#[trigger] old(self).enemies@[i]),
        ensures
            ({
                let pp = old(self).player.p;
                let pr = old(self).player.r as int;
                let cnt = contact_count(old(self).enemies@, pp, pr, old(self).enemies@.len() as int);
                let nhp = old(self).player.hp - CONTACT_DAMAGE * cnt;
                &&& final(self).player == (Player { hp: nhp as i64, ..old(self).player })
                &&& final(self).enemies@ == nudge_all_s(old(self).enemies@, pp, pr)
                &&& final(self).phase == (if nhp <= 0 {
                    Phase::GameOver
                } else {
                    old(self).phase
                })
            }),
            player_wf(final(self).player),
            final(self).player.hp >= old(self).player.hp - CONTACT_DAMAGE * old(self).enemies@.len(),
            forall|i: int|
                0 <= i < final(self).enemies@.len() ==> enemy_wf(#[trigger] final(self).enemies@[i]),
            final(self).bullets@ == old(self).bullets@,
            final(self).wave == old(self).wave,
            final(self).enemies_alive == old(self).enemies_alive,
            final(self).score == old(self).score,
            final(self).intermission == old(self).intermission,
            final(self).rng == old(self).rng,
    {
        let n = self.enemies.len();
        let mut i: usize = 0;
        while i < n
            invariant
                i <= n,
                self.enemies@.len() == n,
                self.player.p == old(self).player.p,
                self.player.r == old(self).player.r,
                self.player.speed == old(self).player.speed,
                self.player.hp == old(self).player.hp - CONTACT_DAMAGE * contact_count(
                    old(self).enemies@,
                    self.player.p,
                    old(self).player.r as int,
                    i as int,
                ),
                self.player.hp >= old(self).player.hp - CONTACT_DAMAGE * i,
                self.player.shoot_cd == old(self).player.shoot_cd,
                self.player.shoot_t == old(self).player.shoot_t,
                self.phase == (if self.player.hp <= 0 {
                    Phase::GameOver
                } else {
                    old(self).phase
                }),
                forall|j: int|
                    0 <= j < i ==> self.enemies@[j] == nudged_enemy_s(
                        #[trigger] old(self).enemies@[j],
                        self.player.p,
                        old(self).player.r as int,
                    ),
                forall|j: int|
                    0 <= j < i ==> enemy_wf(
                        nudged_enemy_s(
                            #[trigger] old(self).enemies@[j],
                            self.player.p,
                            old(self).player.r as int,
                        ),
                    ),
                forall|j: int| i <= j < n ==> self.enemies@[j] == #[trigger] old(self).enemies@[j],
                self.bullets@ == old(self).bullets@,
                self.wave == old(self).wave,
                self.enemies_alive == old(self).enemies_alive,
                self.score == old(self).score,
                self.intermission == old(self).intermission,
                self.rng == old(self).rng,
            decreases n - i,
        {
            proof {
                lemma_contact_count_bounds(
                    old(self).enemies@,
                    self.player.p,
                    old(self).player.r as int,
                    i as int + 1,
                );
            }
            let e = self.enemies[i];
            if e.alive {
                proof {
                    assert(e == old(self).enemies@[i as int]);
                    assert(enemy_wf(e));
                }
                let rr = e.r + self.player.r;
                let diff = e.p.sub(self.player.p);
                let l2 = diff.len2();
                if l2 <= rr * rr {
                    proof {
                        assert(diff.x as int * diff.x as int <= l2 && diff.y as int * diff.y
                            as int <= l2) by (nonlinear_arith)
                            requires
                                l2 == diff.x as int * diff.x as int + diff.y as int * diff.y
                                    as int,
                        ;
                        assert(-26_000 <= diff.x <= 26_000 && -26_000 <= diff.y <= 26_000)
                            by (nonlinear_arith)
                            requires
                                diff.x as int * diff.x as int <= l2 <= 26_000 * 26_000,
                                diff.y as int * diff.y as int <= l2 <= 26_000 * 26_000,
                        ;
                        if l2 != 0 {
                            lemma_norm_bounds(diff.x as int, diff.y as int);
                        }
                    }
                    let dirn = diff.norm();
                    proof {
                        lemma_scale1_mag(dirn.x as int, NUDGE_DIST as int, SCALE as int, NUDGE_DIST as int);
                        lemma_scale1_mag(dirn.y as int, NUDGE_DIST as int, SCALE as int, NUDGE_DIST as int);
                    }
                    self.player.hp = self.player.hp - CONTACT_DAMAGE;
                    let nep = e.p.add(dirn.mul(NUDGE_DIST));
                    self.enemies[i] = Enemy { p: nep, ..e };
                    if self.player.hp <= 0 {
                        self.phase = Phase::GameOver;
                    }
                }
            }
            i = i + 1;
        }
        proof {
            assert(self.enemies@ =~= nudge_all_s(
                old(self).enemies@,
                self.player.p,
                old(self).player.r as int,
            ));
            assert forall|j: int| 0 <= j < self.enemies@.len() implies enemy_wf(
                #[trigger] self.enemies@[j],
            ) by {
                assert(self.enemies@[j] == nudged_enemy_s(
                    old(self).enemies@[j],
                    self.player.p,
                    old(self).player.r as int,
                ));
            }
            lemma_contact_count_bounds(
                old(self).enemies@,
                self.player.p,
                old(self).player.r as int,
                n as int,
            );
        }
    }

    /// Tick the shot cooldown down by `dt`; when the fire button is
    /// held, the cooldown has run out and the aim point does not
    /// coincide with the player, spawn one bullet toward the aim point
    /// and restart the cooldown. Aiming at the player's own position
    /// skips the shot without restarting the cooldown.
    pub fn shoot_if_needed(&mut self, dt: i64, input: &Input)
        requires
            0 <= dt <= DT_MAX,
            player_wf(old(self).player),
            input.mouse_pos.bounded(1_000_000_000),
            forall|i: int|
                0 <= i < old(self).bullets@.len() ==> bullet_ok(#[trigger] old(self).bullets@[i]),
        ensures
            ({
                let t1 = cooled(old(self).player.shoot_t as int, dt as int);
                let dx = input.mouse_pos.x - old(self).player.p.x;
                let dy = input.mouse_pos.y - old(self).player.p.y;
                let fired = input.mouse_left && t1 <= 0 && dx * dx + dy * dy != 0;
                &&& final(self).player == (Player {
                    shoot_t: (if fired {
                        old(self).player.shoot_cd as int
                    } else {
                        t1
                    }) as i64,
                    ..old(self).player
                })
                &&& (fired ==> final(self).bullets@ == old(self).bullets@.push(
                    fired_bullet_s(old(self).player.p, old(self).player.r as int, input.mouse_pos),
                ))
                &&& (!fired ==> final(self).bullets@ == old(self).bullets@)
            }),
            player_wf(final(self).player),
            forall|i: int|
                0 <= i < final(self).bullets@.len() ==> bullet_ok(#[trigger] final(self).bullets@[i]),
            final(self).enemies@ == old(self).enemies@,
            final(self).wave == old(self).wave,
            final(self).enemies_alive == old(self).enemies_alive,
            final(self).score == old(self).score,
            final(self).phase == old(self).phase,
            final(self).intermission == old(self).intermission,
            final(self).rng == old(self).rng,
    {
        self.player.shoot_t = if self.player.shoot_t - dt < SHOOT_T_FLOOR {
            SHOOT_T_FLOOR
        } else {
            self.player.shoot_t - dt
        };
        if !input.mouse_left || self.player.shoot_t > 0 {
            return ;
        }
        let diff = input.mouse_pos.sub(self.player.p);
        let l2 = diff.len2();
        if l2 == 0 {
            return ;
        }
        proof {
            lemma_norm_bounds(diff.x as int, diff.y as int);
        }
        let dirn = diff.norm();
        proof {
            lemma_scale1_mag(dirn.x as int, self.player.r as int + MUZZLE_GAP, SCALE as int, 18_000);
            lemma_scale1_mag(dirn.y as int, self.player.r as int + MUZZLE_GAP, SCALE as int, 18_000);
            lemma_scale1_mag(dirn.x as int, BULLET_SPEED as int, SCALE as int, BULLET_SPEED as int);
            lemma_scale1_mag(dirn.y as int, BULLET_SPEED as int, SCALE as int, BULLET_SPEED as int);
        }
        let offset = dirn.mul(self.player.r + MUZZLE_GAP);
        let bp = self.player.p.add(offset);
        let bv = dirn.mul(BULLET_SPEED);
        let nb = Bullet { p: bp, v: bv, r: BULLET_R, life: BULLET_LIFE, alive: true };
        proof {
            assert(nb == fired_bullet_s(old(self).player.p, old(self).player.r as int, input.mouse_pos));
            assert(bullet_ok(nb));
        }
        self.bullets.push(nb);
        self.player.shoot_t = self.player.shoot_cd;
    }

    /// Re-aim every live enemy straight at the player and advance it by
    /// `dt` (pure pursuit: the velocity turns instantaneously).
    #[verifier::loop_isolation(false)]
    pub fn update_enemies(&mut self, dt: i64)
        requires
            0 <= dt <= DT_MAX,
            player_wf(old(self).player),
            forall|i: int|
                0 <= i < old(self).enemies@.len() ==> enemy_wf(#[trigger] old(self).enemies@[i]),
        ensures
            final(self).enemies@ == pursue_s(old(self).enemies@, old(self).player.p, dt as int),
            forall|i: int|
                0 <= i < final(self).enemies@.len() ==> enemy_wf(#[trigger] final(self).enemies@[i]),
            final(self).player == old(self).player,
            final(self).bullets@ == old(self).bullets@,
            final(self).wave == old(self).wave,
            final(self).enemies_alive == old(self).enemies_alive,
            final(self).score == old(self).score,
            final(self).phase == old(self).phase,
            final(self).intermission == old(self).intermission,
            final(self).rng == old(self).rng,
    {
        let pp = self.player.p;
        let n = self.enemies.len();
        let mut i: usize = 0;
        while i < n
            invariant
                i <= n,
                self.enemies@.len() == n,
                forall|j: int|
                    0 <= j < i ==> self.enemies@[j] == step_enemy_s(
                        #[trigger] old(self).enemies@[j],
                        old(self).player.p,
                        dt as int,
                    ),
                forall|j: int|
                    0 <= j < i ==> enemy_wf(
                        step_enemy_s(#[trigger] old(self).enemies@[j], old(self).player.p, dt as int),
                    ),
                forall|j: int| i <= j < n ==> self.enemies@[j] == #[trigger] old(self).enemies@[j],
                self.player == old(self).player,
                self.bullets@ == old(self).bullets@,
                self.wave == old(self).wave,
                self.enemies_alive == old(self).enemies_alive,
                self.score == old(self).score,
                self.phase == old(self).phase,
                self.intermission == old(self).intermission,
                self.rng == old(self).rng,
            decreases n - i,
        {
            let e = self.enemies[i];
            if e.alive {
                proof {
                    assert(e == old(self).enemies@[i as int]);
                    assert(enemy_wf(e));
                }
                let diff = pp.sub(e.p);
                let l2 = diff.len2();
                proof {
                    if l2 != 0 {
                        lemma_norm_bounds(diff.x as int, diff.y as int);
                    }
                }
                let dirn = diff.norm();
                proof {
                    lemma_scale1_mag(dirn.x as int, e.speed as int, SCALE as int, ENEMY_SPEED_MAX as int);
                    lemma_scale1_mag(dirn.y as int, e.speed as int, SCALE as int, ENEMY_SPEED_MAX as int);
                }
                let v = dirn.mul(e.speed);
                proof {
                    lemma_scale1_mag(v.x as int, dt as int, ENEMY_SPEED_MAX as int, DT_MAX as int);
                    lemma_scale1_mag(v.y as int, dt as int, ENEMY_SPEED_MAX as int, DT_MAX as int);
                }
                let delta = v.mul(dt);
                let np = e.p.add(delta);
                self.enemies[i] = Enemy { p: np, v: v, ..e };
            }
            i = i + 1;
        }
        proof {
            assert(self.enemies@ =~= pursue_s(old(self).enemies@, old(self).player.p, dt as int));
            assert forall|j: int| 0 <= j < self.enemies@.len() implies enemy_wf(
                #[trigger] self.enemies@[j],
            ) by {
                assert(self.enemies@[j] == step_enemy_s(
                    old(self).enemies@[j],
                    old(self).player.p,
                    dt as int,
                ));
            }
        }
    }

    /// Advance every live bullet by `dt`: move it by its velocity, age
    /// it, and mark it dead once its lifetime runs out or it leaves the
    /// arena by more than the margin.
    #[verifier::loop_isolation(false)]
    pub fn update_bullets(&mut self, dt: i64)
        requires
            0 <= dt <= DT_MAX,
            forall|i: int| 0 <= i < old(self).bullets@.len() ==> bullet_ok(#[trigger] old(self).bullets@[i]),
        ensures
            final(self).bullets@ == step_bullets_s(old(self).bullets@, dt as int),
            forall|i: int| 0 <= i < final(self).bullets@.len() ==> bullet_ok(#[trigger] final(self).bullets@[i]),
            final(self).player == old(self).player,
            final(self).enemies@ == old(self).enemies@,
            final(self).wave == old(self).wave,
            final(self).enemies_alive == old(self).enemies_alive,
            final(self).score == old(self).score,
            final(self).phase == old(self).phase,
            final(self).intermission == old(self).intermission,
            final(self).rng == old(self).rng,
    {
        let n = self.bullets.len();
        let mut i: usize = 0;
        while i < n
            invariant
                i <= n,
                self.bullets@.len() == n,
                forall|j: int|
                    0 <= j < i ==> self.bullets@[j] == step_bullet_s(
                        #[trigger] old(self).bullets@[j],
                        dt as int,
                    ),
                forall|j: int|
                    0 <= j < i ==> bullet_ok(step_bullet_s(#[trigger] old(self).bullets@[j], dt as int)),
                forall|j: int| i <= j < n ==> self.bullets@[j] == #[trigger] old(self).bullets@[j],
                self.player == old(self).player,
                self.enemies@ == old(self).enemies@,
                self.wave == old(self).wave,
                self.enemies_alive == old(self).enemies_alive,
                self.score == old(self).score,
                self.phase == old(self).phase,
                self.intermission == old(self).intermission,
                self.rng == old(self).rng,
            decreases n - i,
        {
            let b = self.bullets[i];
            if b.alive {
                proof {
                    assert(b == old(self).bullets@[i as int]);
                    assert(bullet_ok(b));
                    lemma_scale1_mag(b.v.x as int, dt as int, BULLET_SPEED as int, DT_MAX as int);
                    lemma_scale1_mag(b.v.y as int, dt as int, BULLET_SPEED as int, DT_MAX as int);
                }
                let delta = b.v.mul(dt);
                let np = b.p.add(delta);
                let nlife = b.life - dt;
                let out = np.x < -BULLET_MARGIN || np.x > ARENA_W + BULLET_MARGIN || np.y
                    < -BULLET_MARGIN || np.y > ARENA_H + BULLET_MARGIN;
                let nb = Bullet { p: np, v: b.v, r: b.r, life: nlife, alive: nlife > 0 && !out };
                self.bullets[i] = nb;
            }
            i = i + 1;
        }
        proof {
            assert(self.bullets@ =~= step_bullets_s(old(self).bullets@, dt as int));
            assert forall|j: int| 0 <= j < self.bullets@.len() implies bullet_ok(
                #[trigger] self.bullets@[j],
            ) by {
                assert(self.bullets@[j] == step_bullet_s(old(self).bullets@[j], dt as int));
            }
        }
    }

    /// Run the bullet-versus-enemy collision pass: enemies outer in
    /// spawn order, bullets inner in firing order. A bullet dies on the
    /// first enemy it overlaps and costs it one hit point; an enemy out
    /// of hit points dies, lowers the live count and scores.
    #[verifier::loop_isolation(false)]
    #[verifier::rlimit(100)]
    pub fn bullet_enemy_collisions(&mut self)
        requires
            forall|i: int|
                0 <= i < old(self).enemies@.len() ==> enemy_wf(#[trigger] old(self).enemies@[i])
                    && old(self).enemies@[i].alive,
            old(self).enemies_alive as int == old(self).enemies@.len(),
            forall|i: int|
                0 <= i < old(self).bullets@.len() ==> bullet_ok(#[trigger] old(self).bullets@[i]),
            0 <= old(self).score <= SCORE_CAP,
        ensures
            ({
                let r = collide_all(
                    old(self).enemies@,
                    old(self).bullets@,
                    old(self).enemies@.len() as int,
                    old(self).enemies_alive as int,
                    old(self).score as int,
                );
                &&& final(self).enemies@ == r.0
                &&& final(self).bullets@ == r.1
                &&& final(self).enemies_alive as int == r.2
                &&& final(self).score as int == r.3
            }),
            final(self).enemies_alive as int == alive_count(
                final(self).enemies@,
                final(self).enemies@.len() as int,
            ),
            final(self).enemies_alive <= old(self).enemies_alive,
            forall|i: int|
                0 <= i < final(self).enemies@.len() ==> enemy_wf(#[trigger] final(self).enemies@[i]),
            forall|i: int|
                0 <= i < final(self).bullets@.len() ==> bullet_ok(#[trigger] final(self).bullets@[i]),
            old(self).score <= final(self).score <= SCORE_CAP,
            final(self).player == old(self).player,
            final(self).wave == old(self).wave,
            final(self).phase == old(self).phase,
            final(self).intermission == old(self).intermission,
            final(self).rng == old(self).rng,
    {
        let ne = self.enemies.len();
        let nbu = self.bullets.len();
        let mut j: usize = 0;
        while j < ne
            invariant
                j <= ne,
                self.enemies@.len() == ne,
                self.bullets@.len() == nbu,
                ({
                    let r = collide_all(
                        old(self).enemies@,
                        old(self).bullets@,
                        j as int,
                        old(self).enemies_alive as int,
                        old(self).score as int,
                    );
                    &&& self.enemies@ == r.0
                    &&& self.bullets@ == r.1
                    &&& self.enemies_alive as int == r.2
                    &&& self.score as int == r.3
                }),
                self.player == old(self).player,
                self.wave == old(self).wave,
                self.phase == old(self).phase,
                self.intermission == old(self).intermission,
                self.rng == old(self).rng,
            decreases ne - j,
        {
            proof {
                lemma_collide_props(
                    old(self).enemies@,
                    old(self).bullets@,
                    j as int,
                    old(self).enemies_alive as int,
                    old(self).score as int,
                );
                lemma_alive_count_bounds(self.enemies@, j as int);
            }
            let ghost es0 = self.enemies@;
            let ghost bs0 = self.bullets@;
            let ghost a0 = self.enemies_alive;
            let ghost s0 = self.score;
            let mut e = self.enemies[j];
            let mut k: usize = 0;
            while k < nbu
                invariant
                    k <= nbu,
                    j < ne,
                    self.enemies@.len() == ne,
                    self.bullets@.len() == nbu,
                    ({
                        let r = collide_all(
                            old(self).enemies@,
                            old(self).bullets@,
                            j as int,
                            old(self).enemies_alive as int,
                            old(self).score as int,
                        );
                        &&& es0 == r.0
                        &&& bs0 == r.1
                        &&& a0 as int == r.2
                        &&& s0 as int == r.3
                    }),
                    bs0.len() == nbu,
                    a0 as int >= ne - j,
                    0 <= s0 <= SCORE_CAP,
                    es0[j as int].alive && es0[j as int].hp >= 1,
                    ({
                        let r = strike_bullets(es0[j as int], bs0, k as int, a0 as int, s0 as int);
                        &&& e == r.0
                        &&& self.bullets@ == r.1
                        &&& self.enemies_alive as int == r.2
                        &&& self.score as int == r.3
                    }),
                    e.alive ==> e.hp >= 1,
                    self.enemies@ == es0,
                    self.player == old(self).player,
                    self.wave == old(self).wave,
                    self.phase == old(self).phase,
                    self.intermission == old(self).intermission,
                    self.rng == old(self).rng,
                decreases nbu - k,
            {
                proof {
                    lemma_collide_props(
                        old(self).enemies@,
                        old(self).bullets@,
                        j as int,
                        old(self).enemies_alive as int,
                        old(self).score as int,
                    );
                    lemma_strike_props(es0[j as int], bs0, k as int, a0 as int, s0 as int);
                    assert(enemy_wf(old(self).enemies@[j as int]));
                    assert(bullet_ok(old(self).bullets@[k as int]));
                }
                let b = self.bullets[k];
                if e.alive && b.alive {
                    let rr = e.r + b.r;
                    let diff = e.p.sub(b.p);
                    let l2 = diff.len2();
                    if l2 <= rr * rr {
                        self.bullets[k] = Bullet { alive: false, ..b };
                        e.hp = e.hp - 1;
                        if e.hp <= 0 {
                            e.alive = false;
                            self.enemies_alive = self.enemies_alive - 1;
                            self.score = if self.score <= SCORE_CAP - KILL_SCORE {
                                self.score + KILL_SCORE
                            } else {
                                self.score
                            };
                        }
                    }
                }
                k = k + 1;
            }
            self.enemies[j] = e;
            j = j + 1;
        }
        proof {
            lemma_collide_props(
                old(self).enemies@,
                old(self).bullets@,
                ne as int,
                old(self).enemies_alive as int,
                old(self).score as int,
            );
            let r = collide_all(
                old(self).enemies@,
                old(self).bullets@,
                ne as int,
                old(self).enemies_alive as int,
                old(self).score as int,
            );
            assert forall|i: int| 0 <= i < self.enemies@.len() implies enemy_wf(
                #[trigger] self.enemies@[i],
            ) by {
                assert(self.enemies@[i] == r.0[i]);
                assert(old(self).enemies@[i].alive && enemy_wf(old(self).enemies@[i]));
            }
            assert forall|i: int| 0 <= i < self.bullets@.len() implies bullet_ok(
                #[trigger] self.bullets@[i],
            ) by {
                assert(self.bullets@[i] == r.1[i]);
                assert(bullet_ok(old(self).bullets@[i]));
            }
            lemma_alive_count_bounds(self.enemies@, ne as int);
        }
    }

    /// Advance the whole simulation by one tick of `dt`
    /// milli-time-units under the given input snapshot. Negative steps
    /// count as zero and oversized ones are cut to [`DT_MAX`]. Exactly
    /// one of the three phase relations describes the outcome, and
    /// well-formedness is preserved.
    pub fn update(&mut self, dt: i64, input: &Input)
        requires
            old(self).wf(),
            old(self).wave < WAVE_LIMIT,
            input.mouse_pos.bounded(1_000_000_000),
        ensures
            final(self).wf(),
            final(self).wave <= old(self).wave + 1,
            ({
                let d = clamp_dt(dt as int);
                match old(self).phase {
                    Phase::GameOver => game_over_tick(*old(self), *final(self), *input),
                    Phase::Intermission => intermission_tick(*old(self), *final(self), d, *input),
                    Phase::Combat => combat_tick(*old(self), *final(self), d, *input),
                }
            }),
    {
        let d: i64 = if dt < 0 {
            0
        } else if dt > DT_MAX {
            DT_MAX
        } else {
            dt
        };
        proof {
            assert(d as int == clamp_dt(dt as int));
        }
        match self.phase {
            Phase::GameOver => {
                if input.key_enter {
                    self.reset();
                }
            },
            Phase::Intermission => {
                self.update_player(d, input);
                self.update_bullets(d);
                self.cull_dead();
                proof {
                    assert(contact_count(
                        old(self).enemies@,
                        moved_pos(old(self).player, *input, d as int),
                        old(self).player.r as int,
                        0,
                    ) == 0);
                    assert(self.enemies@ =~= live_enemies(old(self).enemies@));
                    assert(self.bullets@ == live_bullets(
                        step_bullets_s(old(self).bullets@, d as int),
                    ));
                    lemma_live_bullets_props(step_bullets_s(old(self).bullets@, d as int));
                }
                self.intermission = self.intermission - d;
                if self.intermission <= 0 {
                    self.begin_wave();
                    proof {
                        assert forall|i: int| 0 <= i < self.enemies@.len() implies enemy_wf(
                            #[trigger] self.enemies@[i],
                        ) && self.enemies@[i].alive by {
                            assert(spawned_enemy_ok(self.enemies@[i], self.wave));
                            vstd::arithmetic::div_mod::lemma_div_pos_is_pos(self.wave as int, 2);
                        }
                    }
                }
            },
            Phase::Combat => {
                self.update_player(d, input);
                let ghost g1 = *self;
                self.shoot_if_needed(d, input);
                let ghost g2 = *self;
                self.update_bullets(d);
                let ghost g3 = *self;
                self.update_enemies(d);
                let ghost g4 = *self;
                proof {
                    assert forall|i: int| 0 <= i < self.enemies@.len() implies (
                    #[trigger] self.enemies@[i]).alive && enemy_wf(self.enemies@[i]) by {
                        assert(self.enemies@[i] == step_enemy_s(
                            g3.enemies@[i],
                            g3.player.p,
                            d as int,
                        ));
                        assert(g1.enemies@[i] == nudged_enemy_s(
                            old(self).enemies@[i],
                            g1.player.p,
                            old(self).player.r as int,
                        ));
                        assert(old(self).enemies@[i].alive);
                    }
                }
                self.bullet_enemy_collisions();
                let ghost g5 = *self;
                self.cull_dead();
                proof {
                    lemma_live_bullets_props(g5.bullets@);
                    lemma_live_enemies_props(g5.enemies@);
                    lemma_alive_count_is_filter(g5.enemies@, g5.enemies@.len() as int);
                    assert(g5.enemies@.subrange(0, g5.enemies@.len() as int) =~= g5.enemies@);
                    lemma_contact_count_bounds(
                        old(self).enemies@,
                        moved_pos(old(self).player, *input, d as int),
                        old(self).player.r as int,
                        old(self).enemies@.len() as int,
                    );
                }
                if self.phase == Phase::Combat && self.enemies_alive == 0 {
                    self.phase = Phase::Intermission;
                    self.intermission = WAVE_COUNTDOWN;
                }
            },
        }
    }

    /// The human-readable status line: wave, live enemies, hit points
    /// clamped below at zero, score, and a phase marker.
    pub fn window_title(&self) -> (t: String)
        requires
            0 <= self.score,
        ensures
            t@ == title_spec(*self),
    {
        proof {
            reveal_strlit("Wave ");
            reveal_strlit(" | Enemies ");
            reveal_strlit(" | HP ");
            reveal_strlit(" | Score ");
            reveal_strlit(" | Intermission");
            reveal_strlit("");
            reveal_strlit(" | GAME OVER (Enter to reset)");
        }
        let mut t = String::from_str("Wave ");
        push_dec(&mut t, self.wave as u64);
        t.append(" | Enemies ");
        push_dec(&mut t, self.enemies_alive as u64);
        t.append(" | HP ");
        let hp: i64 = if self.player.hp < 0 {
            0
        } else {
            self.player.hp
        };
        push_dec(&mut t, hp as u64);
        t.append(" | Score ");
        push_dec(&mut t, self.score as u64);
        match self.phase {
            Phase::Intermission => {
                t.append(" | Intermission");
            },
            Phase::Combat => {
            },
            Phase::GameOver => {
                t.append(" | GAME OVER (Enter to reset)");
            },
        }
        proof {
            assert(t@ =~= title_spec(*self));
        }
        t
    }

    /// Paint the scene into the framebuffer: background, live bullets,
    /// live enemies, the player, and the hit-point bar.
    pub fn draw(&self, fb: &mut Vec<u32>)
        requires
            self.wf(),
            old(fb)@.len() == WIDTH * HEIGHT,
        ensures
            final(fb)@.len() == old(fb)@.len(),
    {
        fill_rect(fb, 0, 0, WIDTH as i32, HEIGHT as i32, rgb(11, 14, 18));
        let nb = self.bullets.len();
        let mut i: usize = 0;
        while i < nb
            invariant
                fb@.len() == WIDTH * HEIGHT,
                nb == self.bullets@.len(),
                self.wf(),
            decreases nb - i,
        {
            let b = self.bullets[i];
            if b.alive {
                fill_circle(fb, to_px(b.p.x), to_px(b.p.y), 4, rgb(90, 200, 255));
            }
            i = i + 1;
        }
        let ne = self.enemies.len();
        let mut k: usize = 0;
        while k < ne
            invariant
                fb@.len() == WIDTH * HEIGHT,
                ne == self.enemies@.len(),
                self.wf(),
            decreases ne - k,
        {
            let e = self.enemies[k];
            if e.alive {
                fill_circle(fb, to_px(e.p.x), to_px(e.p.y), 14, rgb(230, 76, 76));
            }
            k = k + 1;
        }
        fill_circle(fb, to_px(self.player.p.x), to_px(self.player.p.y), 12, 0x00F0F0F0);
        let hpc: i64 = if self.player.hp < 0 {
            0
        } else if self.player.hp > 100 {
            100
        } else {
            self.player.hp
        };
        let hpw: i64 = hpc * 288 / 100;
        fill_rect(fb, 20, 20, hpw as i32, 10, rgb(76, 230, 140));
    }

    /// Remove every dead bullet and dead enemy, keeping the live ones
    /// in order.
    #[verifier::loop_isolation(false)]
    pub fn cull_dead(&mut self)
        ensures
            final(self).bullets@ == live_bullets(old(self).bullets@),
            final(self).enemies@ == live_enemies(old(self).enemies@),
            final(self).player == old(self).player,
            final(self).wave == old(self).wave,
            final(self).enemies_alive == old(self).enemies_alive,
            final(self).score == old(self).score,
            final(self).phase == old(self).phase,
            final(self).intermission == old(self).intermission,
            final(self).rng == old(self).rng,
    {
        let nb = self.bullets.len();
        let mut kept_b: Vec<Bullet> = Vec::new();
        let mut i: usize = 0;
        while i < nb
            invariant
                i <= nb,
                kept_b@ == live_bullets(self.bullets@.subrange(0, i as int)),
                *self == *old(self),
            decreases nb - i,
        {
            let b = self.bullets[i];
            proof {
                let s = self.bullets@;
                let pred = |x: Bullet| x.alive;
                reveal_with_fuel(Seq::filter, 2);
                assert(s.subrange(0, i as int + 1).drop_last() =~= s.subrange(0, i as int));
                assert(s.subrange(0, i as int + 1).last() == s[i as int]);
                assert(s.subrange(0, i as int + 1).filter(pred) == if b.alive {
                    s.subrange(0, i as int).filter(pred).push(b)
                } else {
                    s.subrange(0, i as int).filter(pred)
                });
            }
            if b.alive {
                kept_b.push(b);
            }
            i = i + 1;
        }
        let ne = self.enemies.len();
        let mut kept_e: Vec<Enemy> = Vec::new();
        let mut k: usize = 0;
        while k < ne
            invariant
                k <= ne,
                kept_e@ == live_enemies(self.enemies@.subrange(0, k as int)),
                kept_b@ == live_bullets(old(self).bullets@.subrange(0, nb as int)),
                *self == *old(self),
            decreases ne - k,
        {
            let e = self.enemies[k];
            proof {
                let s = self.enemies@;
                let pred = |x: Enemy| x.alive;
                reveal_with_fuel(Seq::filter, 2);
                assert(s.subrange(0, k as int + 1).drop_last() =~= s.subrange(0, k as int));
                assert(s.subrange(0, k as int + 1).last() == s[k as int]);
                assert(s.subrange(0, k as int + 1).filter(pred) == if e.alive {
                    s.subrange(0, k as int).filter(pred).push(e)
                } else {
                    s.subrange(0, k as int).filter(pred)
                });
            }
            if e.alive {
                kept_e.push(e);
            }
            k = k + 1;
        }
        proof {
            assert(old(self).bullets@.subrange(0, nb as int) =~= old(self).bullets@);
            assert(old(self).enemies@.subrange(0, ne as int) =~= old(self).enemies@);
        }
        self.bullets = kept_b;
        self.enemies = kept_e;
    }
}

/// The character for one decimal digit.
pub open spec fn digit(d: nat) -> char {
    ((48 + d) as u8) as char
}

/// The decimal notation of `n`, most significant digit first.
pub open spec fn dec_str(n: nat) -> Seq<char>
    decreases n,
{
    if n < 10 {
        seq![digit(n)]
    } else {
        dec_str(n / 10).push(digit(n % 10))
    }
}

/// The status line for a game state: wave, live enemies, hit points
/// clamped below at zero, score, and a phase marker.
pub open spec fn title_spec(g: Game) -> Seq<char> {
    "Wave "@ + dec_str(g.wave as nat) + " | Enemies "@ + dec_str(g.enemies_alive as nat)
        + " | HP "@ + dec_str(
        (if g.player.hp < 0 {
            0int
        } else {
            g.player.hp as int
        }) as nat,
    ) + " | Score "@ + dec_str(
        (if g.score < 0 {
            0int
        } else {
            g.score as int
        }) as nat,
    ) + (match g.phase {
        Phase::Intermission => " | Intermission"@,
        Phase::Combat => ""@,
        Phase::GameOver => " | GAME OVER (Enter to reset)"@,
    })
}

/// A fixed-point coordinate reduced to whole units for the screen,
/// truncating toward zero.
fn to_px(v: i64) -> (r: i32)
    requires
        -1_000_000_000 <= v <= 1_000_000_000,
    ensures
        -1_000_000 <= r <= 1_000_000,
{
    if v < 0 {
        -(((-v) / 1000) as i32)
    } else {
        ((v / 1000) as i32)
    }
}

/// The one-character string for a decimal digit.
fn digit_str(d: u64) -> (s: &'static str)
    requires
        d < 10,
    ensures
        s@ == seq![digit(d as nat)],
{
    proof {
        reveal_strlit("0");
        reveal_strlit("1");
        reveal_strlit("2");
        reveal_strlit("3");
        reveal_strlit("4");
        reveal_strlit("5");
        reveal_strlit("6");
        reveal_strlit("7");
        reveal_strlit("8");
        reveal_strlit("9");
    }
    let s = if d == 0 {
        "0"
    } else if d == 1 {
        "1"
    } else if d == 2 {
        "2"
    } else if d == 3 {
        "3"
    } else if d == 4 {
        "4"
    } else if d == 5 {
        "5"
    } else if d == 6 {
        "6"
    } else if d == 7 {
        "7"
    } else if d == 8 {
        "8"
    } else {
        "9"
    };
    proof {
        assert(s@ =~= seq![digit(d as nat)]);
    }
    s
}

/// Append `n` in decimal to `s`.
fn push_dec(s: &mut String, n: u64)
    ensures
        final(s)@ == old(s)@ + dec_str(n as nat),
    decreases n,
{
    if n < 10 {
        s.append(digit_str(n));
        proof {
            assert(s@ =~= old(s)@ + dec_str(n as nat));
        }
    } else {
        push_dec(s, n / 10);
        s.append(digit_str(n % 10));
        proof {
            assert(s@ =~= old(s)@ + dec_str(n as nat));
        }
    }
}

impl Default for Game {
    /// A fresh game with an operating-system-seeded random source.
    fn default() -> (g: Game)
        ensures
            g.is_fresh(),
            g.wf(),
    {
        Game {
            rng: rng_from_entropy(),
            player: Player::default(),
            bullets: Vec::new(),
            enemies: Vec::new(),
            wave: 0,
            enemies_alive: 0,
            score: 0,
            phase: Phase::Intermission,
            intermission: START_COUNTDOWN,
        }
    }
}

} // verus!
