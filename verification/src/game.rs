//! The simulation systems and the per-tick scheduler.
//!
//! Each tick runs, in this fixed order: the round/progression controller
//! (reload on a lost ship, level advance and wave spawn on an empty field),
//! input-driven ship control with movement integration, asteroid movement,
//! asteroid-ship collision, missile movement, missile-asteroid collision,
//! and finally one atomic commit of all deferred destructions.

use crate::components::{Asteroid, GameData, Missile, PendingAsteroid, Player, Position, Renderable, Vec2};
use crate::input::{InputState, Key};
use crate::num::{
    abs_val, dist2, distance_squared, is_sqrt_ceil, isqrt_ceil, mul_div_toward_zero, scale_div,
    sqrt_ceil, wrap_coord, wrap_val,
};
use crate::rng::random_in_range;
use crate::trig::{cos_milli, cosine_milli, lemma_sin_cos_bounds, sin_milli, sine_milli};
use crate::world::{
    count_asteroids, count_game_data, count_matching, count_missiles, count_players,
    game_data_index, has_asteroid, has_game_data, has_missile, has_player, ids_below,
    lemma_count_congruent, lemma_count_take_le,
    lemma_count_ge_one, lemma_count_push, lemma_count_take_step, lemma_count_unique_index,
    lemma_count_zero, lemma_remove_count_keep, lemma_remove_count_le, lemma_remove_from,
    lemma_remove_keeps, lemma_remove_none, lemma_remove_sorted, lemma_the_game_data, position_wf,
    remove_doomed,
    sorted_ids, the_game_data, wf_entity, Entity, World,
};
use crate::{
    ASTEROID_ROT_SPEED, ASTEROID_SPEED, FRICTION_DEN, FRICTION_NUM, FULL_TURN, GAME_HEIGHT,
    GAME_WIDTH, MAX_ID, MAX_MISSILES, MAX_SPEED, MILLI, MIN_SPAWN_DIST,
    MISSILE_HIT_RADIUS, MISSILE_SPEED, PLAYER_HIT_RADIUS, PLAYER_SPEED, ROTATION_SPEED,
    SCORE_AWARD, SPAWN_MARGIN,
};
use vstd::arithmetic::div_mod::{
    lemma_div_is_ordered, lemma_div_multiples_vanish, lemma_div_pos_is_pos, lemma_remainder_lower,
};
use vstd::prelude::*;
use vstd::string::StringExecFns;

verus! {

/// Where the ship starts after a reload.
pub open spec fn spec_start_position() -> Position {
    Position { x: 650000, y: 250000, rot: 0 }
}

/// Where the single seed asteroid of a fresh world sits.
pub open spec fn spec_seed_position() -> Position {
    Position { x: 400000, y: 235000, rot: 45000 }
}

/// Shape of a renderable record as the creation paths write it.
pub open spec fn renderable_shape(
    r: Renderable,
    tex: Seq<char>,
    i_w: u32,
    i_h: u32,
    o_w: u32,
    o_h: u32,
) -> bool {
    &&& r.tex_name@ == tex
    &&& r.i_w == i_w
    &&& r.i_h == i_h
    &&& r.o_w == o_w
    &&& r.o_h == o_h
    &&& r.frame == 0
    &&& r.total_frames == 1
    &&& r.rot == 0
}

/// An entity exactly as `create_asteroid` builds it.
pub open spec fn is_asteroid_entity(e: Entity, id: int, pos: Position, size: u32) -> bool {
    &&& e.id == id
    &&& e.position == Some(pos)
    &&& e.player is None
    &&& e.missile is None
    &&& e.game_data is None
    &&& e.asteroid == Some(Asteroid { speed: ASTEROID_SPEED, rot_speed: ASTEROID_ROT_SPEED })
    &&& e.renderable is Some
    &&& renderable_shape(e.renderable->Some_0, "img/asteroid.png"@, 256, 256, size, size)
}

/// An entity exactly as `fire_missile` builds it.
pub open spec fn is_missile_entity(e: Entity, id: int, pos: Position) -> bool {
    &&& e.id == id
    &&& e.position == Some(pos)
    &&& e.player is None
    &&& e.asteroid is None
    &&& e.game_data is None
    &&& e.missile == Some(Missile { speed: MISSILE_SPEED })
    &&& e.renderable is Some
    &&& renderable_shape(e.renderable->Some_0, "img/bullet.png"@, 8, 32, 8, 32)
}

/// The ship entity of a fresh world.
pub open spec fn is_start_player_entity(e: Entity, id: int) -> bool {
    &&& e.id == id
    &&& e.position == Some(spec_start_position())
    &&& e.player == Some(Player { impulse: Vec2 { x: 0, y: 0 }, cur_speed: Vec2 { x: 0, y: 0 } })
    &&& e.asteroid is None
    &&& e.missile is None
    &&& e.game_data is None
    &&& e.renderable is Some
    &&& renderable_shape(e.renderable->Some_0, "img/ship.png"@, 256, 256, 64, 64)
}

/// The session-state entity of a fresh world.
pub open spec fn is_fresh_game_data_entity(e: Entity, id: int) -> bool {
    &&& e.id == id
    &&& e.position is None
    &&& e.renderable is None
    &&& e.player is None
    &&& e.asteroid is None
    &&& e.missile is None
    &&& e.game_data == Some(GameData { score: 0, level: 1, god_mode: false })
}

/// Creates one asteroid entity at `position`, drawn at `asteroid_size`
/// pixels, with the fixed forward speed and spin rate.
pub fn create_asteroid(ecs: &mut World, position: Position, asteroid_size: u32)
    requires
        old(ecs).next_id < u64::MAX,
        position_wf(position),
    ensures
        final(ecs).entities@.len() == old(ecs).entities@.len() + 1,
        final(ecs).entities@ == old(ecs).entities@.push(final(ecs).entities@.last()),
        is_asteroid_entity(
            final(ecs).entities@.last(),
            old(ecs).next_id as int,
            position,
            asteroid_size,
        ),
        final(ecs).next_id == old(ecs).next_id + 1,
        old(ecs).wf() ==> final(ecs).wf(),
        count_players(final(ecs).entities@) == count_players(old(ecs).entities@),
        count_missiles(final(ecs).entities@) == count_missiles(old(ecs).entities@),
        count_game_data(final(ecs).entities@) == count_game_data(old(ecs).entities@),
        count_asteroids(final(ecs).entities@) == count_asteroids(old(ecs).entities@) + 1,
{
    let renderable = Renderable {
        tex_name: String::from_str("img/asteroid.png"),
        i_w: 256,
        i_h: 256,
        o_w: asteroid_size,
        o_h: asteroid_size,
        frame: 0,
        total_frames: 1,
        rot: 0,
    };
    let asteroid = Asteroid { speed: ASTEROID_SPEED, rot_speed: ASTEROID_ROT_SPEED };
    let ghost before = ecs.entities@;
    ecs.create_entity(Some(position), Some(renderable), None, Some(asteroid), None, None);
    proof {
        let e = ecs.entities@.last();
        lemma_count_push(before, |en: Entity| has_player(en), e);
        lemma_count_push(before, |en: Entity| has_missile(en), e);
        lemma_count_push(before, |en: Entity| has_game_data(en), e);
        lemma_count_push(before, |en: Entity| has_asteroid(en), e);
    }
}

/// Creates a missile at the firing ship's position and heading, unless the
/// in-flight cap is already reached, in which case the request is dropped.
pub fn fire_missile(ecs: &mut World, position: Position)
    requires
        old(ecs).next_id < u64::MAX,
        position_wf(position),
    ensures
        final(ecs).next_id >= old(ecs).next_id,
        count_missiles(old(ecs).entities@) >= MAX_MISSILES ==> *final(ecs) == *old(ecs),
        count_missiles(old(ecs).entities@) < MAX_MISSILES ==> {
            &&& final(ecs).entities@.len() == old(ecs).entities@.len() + 1
            &&& final(ecs).entities@ == old(ecs).entities@.push(final(ecs).entities@.last())
            &&& is_missile_entity(final(ecs).entities@.last(), old(ecs).next_id as int, position)
            &&& final(ecs).next_id == old(ecs).next_id + 1
        },
        count_missiles(final(ecs).entities@) <= count_missiles(old(ecs).entities@) + 1,
        count_missiles(old(ecs).entities@) <= MAX_MISSILES ==> count_missiles(
            final(ecs).entities@,
        ) <= MAX_MISSILES,
        count_players(final(ecs).entities@) == count_players(old(ecs).entities@),
        count_asteroids(final(ecs).entities@) == count_asteroids(old(ecs).entities@),
        count_game_data(final(ecs).entities@) == count_game_data(old(ecs).entities@),
        old(ecs).wf() ==> final(ecs).wf(),
{
    let live = ecs.num_missiles();
    if live >= MAX_MISSILES {
        return ;
    }
    let renderable = Renderable {
        tex_name: String::from_str("img/bullet.png"),
        i_w: 8,
        i_h: 32,
        o_w: 8,
        o_h: 32,
        frame: 0,
        total_frames: 1,
        rot: 0,
    };
    let ghost before = ecs.entities@;
    ecs.create_entity(
        Some(position),
        Some(renderable),
        None,
        None,
        Some(Missile { speed: MISSILE_SPEED }),
        None,
    );
    proof {
        let e = ecs.entities@.last();
        lemma_count_push(before, |en: Entity| has_player(en), e);
        lemma_count_push(before, |en: Entity| has_missile(en), e);
        lemma_count_push(before, |en: Entity| has_game_data(en), e);
        lemma_count_push(before, |en: Entity| has_asteroid(en), e);
    }
}

/// Loads the initial world into an empty store: the ship at its start
/// position, one seed asteroid drawn at 64 pixels, and fresh session state
/// with score 0 and level 1.
pub fn load_world(ecs: &mut World)
    requires
        old(ecs).entities@.len() == 0,
        old(ecs).next_id <= u64::MAX - 3,
    ensures
        final(ecs).entities@.len() == 3,
        is_start_player_entity(final(ecs).entities@[0], old(ecs).next_id as int),
        is_asteroid_entity(final(ecs).entities@[1], old(ecs).next_id + 1, spec_seed_position(), 64),
        is_fresh_game_data_entity(final(ecs).entities@[2], old(ecs).next_id + 2),
        final(ecs).next_id == old(ecs).next_id + 3,
        final(ecs).wf(),
        count_players(final(ecs).entities@) == 1,
        count_asteroids(final(ecs).entities@) == 1,
        count_missiles(final(ecs).entities@) == 0,
        the_game_data(final(ecs).entities@) == (GameData { score: 0, level: 1, god_mode: false }),
{
    let ship_renderable = Renderable {
        tex_name: String::from_str("img/ship.png"),
        i_w: 256,
        i_h: 256,
        o_w: 64,
        o_h: 64,
        frame: 0,
        total_frames: 1,
        rot: 0,
    };
    let ship = Player { impulse: Vec2::zero(), cur_speed: Vec2::zero() };
    let ghost s0 = ecs.entities@;
    ecs.create_entity(
        Some(Position { x: 650000, y: 250000, rot: 0 }),
        Some(ship_renderable),
        Some(ship),
        None,
        None,
        None,
    );
    let ghost s1 = ecs.entities@;
    create_asteroid(ecs, Position { x: 400000, y: 235000, rot: 45000 }, 64);
    let ghost s2 = ecs.entities@;
    ecs.create_entity(None, None, None, None, None, Some(GameData { score: 0, level: 1, god_mode: false }));
    proof {
        let s3 = ecs.entities@;
        let fp = |en: Entity| has_player(en);
        let fa = |en: Entity| has_asteroid(en);
        let fm = |en: Entity| has_missile(en);
        let fg = |en: Entity| has_game_data(en);
        lemma_count_push(s0, fp, s1.last());
        lemma_count_push(s1, fp, s2.last());
        lemma_count_push(s2, fp, s3.last());
        lemma_count_push(s0, fa, s1.last());
        lemma_count_push(s2, fa, s3.last());
        lemma_count_push(s0, fm, s1.last());
        lemma_count_push(s1, fm, s2.last());
        lemma_count_push(s2, fm, s3.last());
        lemma_count_push(s0, fg, s1.last());
        lemma_count_push(s1, fg, s2.last());
        lemma_count_push(s2, fg, s3.last());
        lemma_the_game_data(s3, 2);
    }
}

/// Friction then impulse, applied to the carried velocity, before clamping.
pub open spec fn integrated_speed(p: Player) -> (int, int) {
    (
        mul_div_toward_zero(p.cur_speed.x as int, FRICTION_NUM as int, FRICTION_DEN as int)
            + p.impulse.x,
        mul_div_toward_zero(p.cur_speed.y as int, FRICTION_NUM as int, FRICTION_DEN as int)
            + p.impulse.y,
    )
}

/// The integrated velocity, rescaled onto the speed cap when it exceeds it.
pub open spec fn clamped_speed(p: Player) -> (int, int) {
    let (vx, vy) = integrated_speed(p);
    if vx * vx + vy * vy <= MAX_SPEED * MAX_SPEED {
        (vx, vy)
    } else {
        let l = sqrt_ceil(vx * vx + vy * vy);
        (
            mul_div_toward_zero(vx, MAX_SPEED as int, l),
            mul_div_toward_zero(vy, MAX_SPEED as int, l),
        )
    }
}

/// Scaling a magnitude by 99/100 does not increase it.
proof fn lemma_friction_le(a: int)
    requires
        0 <= a,
    ensures
        (a * FRICTION_NUM) / (FRICTION_DEN as int) <= a,
{
    assert(a * FRICTION_NUM <= a * FRICTION_DEN) by (nonlinear_arith)
        requires
            0 <= a,
    ;
    lemma_div_is_ordered(a * FRICTION_NUM, a * FRICTION_DEN, FRICTION_DEN as int);
    lemma_div_multiples_vanish(a, FRICTION_DEN as int);
}

/// Rescaling a vector by `MAX_SPEED` over the ceiling square root of its
/// squared magnitude lands it within the speed cap.
proof fn lemma_clamp_bound(vx: int, vy: int, l: int)
    requires
        vx * vx + vy * vy > MAX_SPEED * MAX_SPEED,
        is_sqrt_ceil(vx * vx + vy * vy, l),
        abs_val(vx) <= 3000000,
        abs_val(vy) <= 3000000,
    ensures
        1 <= l,
        abs_val(vx) <= l,
        abs_val(vy) <= l,
        ({
            let qx = mul_div_toward_zero(vx, MAX_SPEED as int, l);
            let qy = mul_div_toward_zero(vy, MAX_SPEED as int, l);
            qx * qx + qy * qy <= MAX_SPEED * MAX_SPEED
        }),
{
    let m2 = vx * vx + vy * vy;
    assert(l >= 1);
    let ax = abs_val(vx);
    let ay = abs_val(vy);
    assert(ax * ax + ay * ay == m2 && ax * ax <= m2 && ay * ay <= m2) by (nonlinear_arith)
        requires
            ax == abs_val(vx),
            ay == abs_val(vy),
            m2 == vx * vx + vy * vy,
    ;
    assert(ax <= l && ay <= l) by (nonlinear_arith)
        requires
            0 <= ax,
            0 <= ay,
            0 <= l,
            ax * ax <= l * l,
            ay * ay <= l * l,
    ;
    let qx = mul_div_toward_zero(vx, MAX_SPEED as int, l);
    let qy = mul_div_toward_zero(vy, MAX_SPEED as int, l);
    let bx = (ax * MAX_SPEED) / l;
    let by = (ay * MAX_SPEED) / l;
    assert(abs_val(qx) == bx && abs_val(qy) == by && qx * qx == bx * bx && qy * qy == by * by)
        by (nonlinear_arith)
        requires
            qx == mul_div_toward_zero(vx, MAX_SPEED as int, l),
            qy == mul_div_toward_zero(vy, MAX_SPEED as int, l),
            bx == (ax * MAX_SPEED) / l,
            by == (ay * MAX_SPEED) / l,
            ax == abs_val(vx),
            ay == abs_val(vy),
            1 <= l,
    ;
    lemma_div_pos_is_pos(ax * MAX_SPEED, l);
    lemma_div_pos_is_pos(ay * MAX_SPEED, l);
    lemma_remainder_lower(ax * MAX_SPEED, l);
    lemma_remainder_lower(ay * MAX_SPEED, l);
    assert(bx * bx + by * by <= MAX_SPEED * MAX_SPEED) by (nonlinear_arith)
        requires
            0 <= bx,
            0 <= by,
            1 <= l,
            bx * l <= ax * MAX_SPEED,
            by * l <= ay * MAX_SPEED,
            0 <= ax,
            0 <= ay,
            ax * ax + ay * ay <= l * l,
    ;
}

/// One bound on both components of a capped velocity.
proof fn lemma_mag2_component_bound(v: Vec2)
    requires
        v.mag2() <= MAX_SPEED * MAX_SPEED,
    ensures
        abs_val(v.x as int) <= MAX_SPEED,
        abs_val(v.y as int) <= MAX_SPEED,
{
    assert(abs_val(v.x as int) <= MAX_SPEED && abs_val(v.y as int) <= MAX_SPEED)
        by (nonlinear_arith)
        requires
            v.x * v.x + v.y * v.y <= MAX_SPEED * MAX_SPEED,
    ;
}

/// Integrates the ship's physics for one tick: friction, then the pending
/// impulse, then the speed cap (rescaling preserves direction), then the
/// positional advance.  The vertical axis is deliberately subtracted: screen
/// space grows downward while velocity treats up as positive.  The pending
/// impulse is consumed whether or not thrust was held.
pub fn update_movement(pos: &mut Position, player: &mut Player)
    requires
        abs_val(old(player).cur_speed.x as int) <= 1000000,
        abs_val(old(player).cur_speed.y as int) <= 1000000,
        abs_val(old(player).impulse.x as int) <= 1000000,
        abs_val(old(player).impulse.y as int) <= 1000000,
        0 <= old(pos).x < GAME_WIDTH,
        0 <= old(pos).y < GAME_HEIGHT,
    ensures
        final(player).impulse == Vec2::spec_zero(),
        (final(player).cur_speed.x as int, final(player).cur_speed.y as int) == clamped_speed(
            *old(player),
        ),
        final(player).cur_speed.mag2() <= MAX_SPEED * MAX_SPEED,
        abs_val(final(player).cur_speed.x as int) <= MAX_SPEED,
        abs_val(final(player).cur_speed.y as int) <= MAX_SPEED,
        final(pos).x == old(pos).x + final(player).cur_speed.x,
        final(pos).y == old(pos).y - final(player).cur_speed.y,
        final(pos).rot == old(pos).rot,
{
    proof {
        lemma_friction_le(abs_val(player.cur_speed.x as int));
        lemma_friction_le(abs_val(player.cur_speed.y as int));
    }
    let vx = scale_div(player.cur_speed.x, FRICTION_NUM, FRICTION_DEN) + player.impulse.x;
    let vy = scale_div(player.cur_speed.y, FRICTION_NUM, FRICTION_DEN) + player.impulse.y;
    assert(0 <= vx * vx <= 4000000000000 && 0 <= vy * vy <= 4000000000000) by (nonlinear_arith)
        requires
            -2000000 <= vx <= 2000000,
            -2000000 <= vy <= 2000000,
    ;
    let m2: i64 = vx * vx + vy * vy;
    let speed = if m2 > MAX_SPEED * MAX_SPEED {
        let l = isqrt_ceil(m2 as u64);
        proof {
            lemma_clamp_bound(vx as int, vy as int, l as int);
        }
        Vec2 {
            x: scale_div(vx, MAX_SPEED, l as i64),
            y: scale_div(vy, MAX_SPEED, l as i64),
        }
    } else {
        Vec2 { x: vx, y: vy }
    };
    proof {
        lemma_mag2_component_bound(speed);
    }
    player.cur_speed = speed;
    player.impulse = Vec2::zero();
    pos.x = pos.x + speed.x;
    pos.y = pos.y - speed.y;
}

/// Picks a placement for one spawned asteroid: uniform over the margin-inset
/// field, rejecting any point closer than `MIN_SPAWN_DIST` to the ship.  The
/// retry budget is bounded; if every sample is rejected (vanishingly rare,
/// since the exclusion zone covers a small fraction of the field), a
/// deterministic point at a quarter-field horizontal offset from the ship is
/// used, which always satisfies the distance bound.
pub fn find_spawn_position(px: i64, py: i64) -> (pa: PendingAsteroid)
    requires
        0 <= px < GAME_WIDTH,
        0 <= py < GAME_HEIGHT,
    ensures
        SPAWN_MARGIN <= pa.x < GAME_WIDTH - SPAWN_MARGIN,
        SPAWN_MARGIN <= pa.y < GAME_HEIGHT - SPAWN_MARGIN,
        0 <= pa.rot < FULL_TURN,
        dist2(pa.x as int, pa.y as int, px as int, py as int) >= MIN_SPAWN_DIST * MIN_SPAWN_DIST,
        pa.size == 128,
{
    let mut tries: u32 = 64;
    while tries > 0
        invariant
            0 <= px < GAME_WIDTH,
            0 <= py < GAME_HEIGHT,
        decreases tries,
    {
        let x = random_in_range(SPAWN_MARGIN, GAME_WIDTH - SPAWN_MARGIN);
        let y = random_in_range(SPAWN_MARGIN, GAME_HEIGHT - SPAWN_MARGIN);
        let rot = random_in_range(0, FULL_TURN);
        let d2 = distance_squared(x, y, px, py);
        if d2 >= MIN_SPAWN_DIST * MIN_SPAWN_DIST {
            return PendingAsteroid { x, y, rot, size: 128 };
        }
        tries = tries - 1;
    }
    let x = if px <= GAME_WIDTH / 2 {
        px + 400000
    } else {
        px - 400000
    };
    let y = GAME_HEIGHT / 2;
    proof {
        let dx = x - px;
        let dy = (y - py) as int;
        assert(dx * dx == 160000000000 && dy * dy >= 0) by (nonlinear_arith)
            requires
                dx == 400000 || dx == -400000,
        ;
    }
    PendingAsteroid { x, y, rot: 0, size: 128 }
}

/// An entity the ship-control system acts on.
pub open spec fn full_player(e: Entity) -> bool {
    e.player is Some && e.position is Some && e.renderable is Some
}

/// An entity the asteroid systems act on.
pub open spec fn full_asteroid(e: Entity) -> bool {
    e.asteroid is Some && e.position is Some && e.renderable is Some
}

/// An entity the missile systems act on.
pub open spec fn full_missile(e: Entity) -> bool {
    e.missile is Some && e.position is Some && e.renderable is Some
}

/// The ship's heading after the held turn keys, normalized.
pub open spec fn player_turned_rot(rot: int, keys: InputState) -> int {
    wrap_val(
        rot + (if keys.right {
            ROTATION_SPEED as int
        } else {
            0
        }) - (if keys.left {
            ROTATION_SPEED as int
        } else {
            0
        }),
        FULL_TURN as int,
    )
}

/// The ship entity after one tick of input handling and integration:
/// turn keys adjust the heading; friction, pending impulse and the speed cap
/// produce the new velocity; the position advances and wraps; thrust leaves a
/// fresh unit impulse for the next tick; the renderable mirrors the heading.
pub open spec fn player_stepped(e: Entity, keys: InputState) -> Entity {
    let p0 = e.position->Some_0;
    let pl0 = e.player->Some_0;
    let rotw = player_turned_rot(p0.rot as int, keys);
    let (sx, sy) = clamped_speed(pl0);
    let npos = Position {
        x: wrap_val(p0.x + sx, GAME_WIDTH as int) as i64,
        y: wrap_val(p0.y - sy, GAME_HEIGHT as int) as i64,
        rot: rotw as i64,
    };
    let nimp = if keys.thrust {
        Vec2 {
            x: mul_div_toward_zero(sin_milli(rotw), PLAYER_SPEED as int, MILLI as int) as i64,
            y: mul_div_toward_zero(cos_milli(rotw), PLAYER_SPEED as int, MILLI as int) as i64,
        }
    } else {
        Vec2 { x: 0, y: 0 }
    };
    Entity {
        position: Some(npos),
        player: Some(Player { impulse: nimp, cur_speed: Vec2 { x: sx as i64, y: sy as i64 } }),
        renderable: Some(Renderable { rot: rotw as i64, ..e.renderable->Some_0 }),
        ..e
    }
}

/// What the ship-control system leaves at each slot.
pub open spec fn after_player_system(e: Entity, keys: InputState) -> Entity {
    if full_player(e) {
        player_stepped(e, keys)
    } else {
        e
    }
}

/// An asteroid entity after one tick: it advances along its heading by its
/// speed, wraps, spins by its rotation rate, and mirrors the new heading
/// into its renderable.
pub open spec fn asteroid_stepped(e: Entity) -> Entity {
    let p = e.position->Some_0;
    let a = e.asteroid->Some_0;
    let nrot = wrap_val(p.rot + a.rot_speed, FULL_TURN as int);
    let npos = Position {
        x: wrap_val(
            p.x + mul_div_toward_zero(sin_milli(p.rot as int), a.speed as int, MILLI as int),
            GAME_WIDTH as int,
        ) as i64,
        y: wrap_val(
            p.y - mul_div_toward_zero(cos_milli(p.rot as int), a.speed as int, MILLI as int),
            GAME_HEIGHT as int,
        ) as i64,
        rot: nrot as i64,
    };
    Entity {
        position: Some(npos),
        renderable: Some(Renderable { rot: nrot as i64, ..e.renderable->Some_0 }),
        ..e
    }
}

/// What the asteroid mover leaves at each slot.
pub open spec fn after_asteroid_mover(e: Entity) -> Entity {
    if full_asteroid(e) {
        asteroid_stepped(e)
    } else {
        e
    }
}

/// A missile entity after one tick: it advances along its fixed heading by
/// its speed and wraps; the renderable mirrors the heading.
pub open spec fn missile_stepped(e: Entity) -> Entity {
    let p = e.position->Some_0;
    let m = e.missile->Some_0;
    let npos = Position {
        x: wrap_val(
            p.x + mul_div_toward_zero(sin_milli(p.rot as int), m.speed as int, MILLI as int),
            GAME_WIDTH as int,
        ) as i64,
        y: wrap_val(
            p.y - mul_div_toward_zero(cos_milli(p.rot as int), m.speed as int, MILLI as int),
            GAME_HEIGHT as int,
        ) as i64,
        rot: p.rot,
    };
    Entity {
        position: Some(npos),
        renderable: Some(Renderable { rot: p.rot, ..e.renderable->Some_0 }),
        ..e
    }
}

/// What the missile mover leaves at each slot.
pub open spec fn after_missile_mover(e: Entity) -> Entity {
    if full_missile(e) {
        missile_stepped(e)
    } else {
        e
    }
}

/// A value within one unit, scaled by `num` over one unit, stays within `num`.
proof fn lemma_mul_div_unit(v: int, num: int)
    requires
        abs_val(v) <= MILLI,
        0 <= num,
    ensures
        abs_val(mul_div_toward_zero(v, num, MILLI as int)) <= num,
        (abs_val(v) * num) / (MILLI as int) <= num,
{
    assert(abs_val(v) * num <= MILLI * num && abs_val(mul_div_toward_zero(v, num, MILLI as int))
        == (abs_val(v) * num) / (MILLI as int)) by (nonlinear_arith)
        requires
            abs_val(v) <= MILLI,
            0 <= num,
    ;
    lemma_div_is_ordered(abs_val(v) * num, MILLI * num, MILLI as int);
    lemma_div_multiples_vanish(num, MILLI as int);
}

/// Runs ship control and integration over every ship entity; returns the
/// position to fire from when the fire key is held and a ship exists.
fn player_system(ecs: &mut World, keys: &InputState) -> (fire: Option<Position>)
    requires
        old(ecs).wf(),
    ensures
        final(ecs).wf(),
        final(ecs).next_id == old(ecs).next_id,
        final(ecs).entities@.len() == old(ecs).entities@.len(),
        forall|j: int|
            0 <= j < old(ecs).entities@.len() ==> final(ecs).entities@[j] == after_player_system(
                #[trigger] old(ecs).entities@[j],
                *keys,
            ),
        fire is Some <==> keys.fire && exists|j: int|
            0 <= j < old(ecs).entities@.len() && full_player(#[trigger] old(ecs).entities@[j]),
        fire matches Some(p) ==> exists|j: int|
            0 <= j < old(ecs).entities@.len() && full_player(#[trigger] old(ecs).entities@[j])
                && p == player_stepped(old(ecs).entities@[j], *keys).position->Some_0,
{
    let ghost s = old(ecs).entities@;
    let ghost nid = old(ecs).next_id;
    let mut fire: Option<Position> = None;
    let mut i: usize = 0;
    let n = ecs.entities.len();
    while i < n
        invariant
            ecs.wf(),
            n == s.len(),
            i <= n,
            ecs.next_id == nid,
            ecs.entities@.len() == s.len(),
            forall|j: int|
                0 <= j < i ==> ecs.entities@[j] == after_player_system(#[trigger] s[j], *keys),
            forall|j: int| i <= j < s.len() ==> ecs.entities@[j] == #[trigger] s[j],
            fire is Some <==> keys.fire && exists|j: int|
                0 <= j < i && full_player(#[trigger] s[j]),
            fire matches Some(p) ==> exists|j: int|
                0 <= j < i && full_player(#[trigger] s[j]) && p == player_stepped(
                    s[j],
                    *keys,
                ).position->Some_0,
        decreases n - i,
    {
        let ghost pre = ecs.entities@;
        let is_full = {
            let er = &ecs.entities[i];
            er.player.is_some() && er.position.is_some() && er.renderable.is_some()
        };
        if is_full {
            let e = ecs.entities.remove(i);
            let ghost olde = e;
            let Entity { id, position, renderable, player, asteroid, missile, game_data } = e;
            let mut p = position.unwrap();
            let mut pl = player.unwrap();
            let mut r = renderable.unwrap();
            if keys.is_key_pressed(Key::Right) {
                p.rot = p.rot + ROTATION_SPEED;
            }
            if keys.is_key_pressed(Key::Left) {
                p.rot = p.rot - ROTATION_SPEED;
            }
            proof {
                lemma_mag2_component_bound(pl.cur_speed);
            }
            update_movement(&mut p, &mut pl);
            let rotw = wrap_coord(p.rot, FULL_TURN);
            p.rot = rotw;
            if keys.is_key_pressed(Key::Thrust) {
                let sn = sine_milli(rotw);
                let cs = cosine_milli(rotw);
                proof {
                    lemma_mul_div_unit(sn as int, PLAYER_SPEED as int);
                    lemma_mul_div_unit(cs as int, PLAYER_SPEED as int);
                }
                pl.impulse = Vec2 {
                    x: scale_div(sn, PLAYER_SPEED, MILLI),
                    y: scale_div(cs, PLAYER_SPEED, MILLI),
                };
            }
            p.x = wrap_coord(p.x, GAME_WIDTH);
            p.y = wrap_coord(p.y, GAME_HEIGHT);
            r.rot = rotw;
            if keys.is_key_pressed(Key::Fire) {
                fire = Some(p);
            }
            let ne = Entity {
                id,
                position: Some(p),
                renderable: Some(r),
                player: Some(pl),
                asteroid,
                missile,
                game_data,
            };
            proof {
                assert(ne == player_stepped(olde, *keys));
            }
            ecs.entities.insert(i, ne);
            proof {
                assert(ecs.entities@ =~= pre.update(i as int, ne));
                assert(wf_entity(ne));
                lemma_count_congruent(pre, ecs.entities@, |en: Entity| has_player(en));
                lemma_count_congruent(pre, ecs.entities@, |en: Entity| has_asteroid(en));
                lemma_count_congruent(pre, ecs.entities@, |en: Entity| has_missile(en));
                lemma_count_congruent(pre, ecs.entities@, |en: Entity| has_game_data(en));
                assert(olde == s[i as int]);
                assert(full_player(s[i as int]));
                if keys.fire {
                    assert(fire == Some(player_stepped(s[i as int], *keys).position->Some_0));
                }
            }
        } else {
            proof {
                assert(!full_player(s[i as int]));
            }
        }
        i = i + 1;
    }
    fire
}

/// Advances every asteroid one tick.
fn move_asteroids(ecs: &mut World)
    requires
        old(ecs).wf(),
    ensures
        final(ecs).wf(),
        final(ecs).next_id == old(ecs).next_id,
        final(ecs).entities@.len() == old(ecs).entities@.len(),
        forall|j: int|
            0 <= j < old(ecs).entities@.len() ==> final(ecs).entities@[j] == after_asteroid_mover(
                #[trigger] old(ecs).entities@[j],
            ),
{
    let ghost s = old(ecs).entities@;
    let ghost nid = old(ecs).next_id;
    let mut i: usize = 0;
    let n = ecs.entities.len();
    while i < n
        invariant
            ecs.wf(),
            n == s.len(),
            i <= n,
            ecs.next_id == nid,
            ecs.entities@.len() == s.len(),
            forall|j: int|
                0 <= j < i ==> ecs.entities@[j] == after_asteroid_mover(#[trigger] s[j]),
            forall|j: int| i <= j < s.len() ==> ecs.entities@[j] == #[trigger] s[j],
        decreases n - i,
    {
        let ghost pre = ecs.entities@;
        let is_full = {
            let er = &ecs.entities[i];
            er.asteroid.is_some() && er.position.is_some() && er.renderable.is_some()
        };
        if is_full {
            let e = ecs.entities.remove(i);
            let ghost olde = e;
            let Entity { id, position, renderable, player, asteroid, missile, game_data } = e;
            let mut p = position.unwrap();
            let a = asteroid.unwrap();
            let mut r = renderable.unwrap();
            let sn = sine_milli(p.rot);
            let cs = cosine_milli(p.rot);
            proof {
                lemma_mul_div_unit(sn as int, a.speed as int);
                lemma_mul_div_unit(cs as int, a.speed as int);
            }
            let dx = scale_div(sn, a.speed, MILLI);
            let dy = scale_div(cs, a.speed, MILLI);
            p.x = wrap_coord(p.x + dx, GAME_WIDTH);
            p.y = wrap_coord(p.y - dy, GAME_HEIGHT);
            p.rot = wrap_coord(p.rot + a.rot_speed, FULL_TURN);
            r.rot = p.rot;
            let ne = Entity {
                id,
                position: Some(p),
                renderable: Some(r),
                player,
                asteroid: Some(a),
                missile,
                game_data,
            };
            proof {
                assert(ne == asteroid_stepped(olde));
            }
            ecs.entities.insert(i, ne);
            proof {
                assert(ecs.entities@ =~= pre.update(i as int, ne));
                assert(wf_entity(ne));
                lemma_count_congruent(pre, ecs.entities@, |en: Entity| has_player(en));
                lemma_count_congruent(pre, ecs.entities@, |en: Entity| has_asteroid(en));
                lemma_count_congruent(pre, ecs.entities@, |en: Entity| has_missile(en));
                lemma_count_congruent(pre, ecs.entities@, |en: Entity| has_game_data(en));
            }
        }
        i = i + 1;
    }
}

/// Advances every missile one tick.
fn move_missiles(ecs: &mut World)
    requires
        old(ecs).wf(),
    ensures
        final(ecs).wf(),
        final(ecs).next_id == old(ecs).next_id,
        final(ecs).entities@.len() == old(ecs).entities@.len(),
        forall|j: int|
            0 <= j < old(ecs).entities@.len() ==> final(ecs).entities@[j] == after_missile_mover(
                #[trigger] old(ecs).entities@[j],
            ),
{
    let ghost s = old(ecs).entities@;
    let ghost nid = old(ecs).next_id;
    let mut i: usize = 0;
    let n = ecs.entities.len();
    while i < n
        invariant
            ecs.wf(),
            n == s.len(),
            i <= n,
            ecs.next_id == nid,
            ecs.entities@.len() == s.len(),
            forall|j: int|
                0 <= j < i ==> ecs.entities@[j] == after_missile_mover(#[trigger] s[j]),
            forall|j: int| i <= j < s.len() ==> ecs.entities@[j] == #[trigger] s[j],
        decreases n - i,
    {
        let ghost pre = ecs.entities@;
        let is_full = {
            let er = &ecs.entities[i];
            er.missile.is_some() && er.position.is_some() && er.renderable.is_some()
        };
        if is_full {
            let e = ecs.entities.remove(i);
            let ghost olde = e;
            let Entity { id, position, renderable, player, asteroid, missile, game_data } = e;
            let mut p = position.unwrap();
            let m = missile.unwrap();
            let mut r = renderable.unwrap();
            let sn = sine_milli(p.rot);
            let cs = cosine_milli(p.rot);
            proof {
                lemma_mul_div_unit(sn as int, m.speed as int);
                lemma_mul_div_unit(cs as int, m.speed as int);
            }
            let dx = scale_div(sn, m.speed, MILLI);
            let dy = scale_div(cs, m.speed, MILLI);
            p.x = wrap_coord(p.x + dx, GAME_WIDTH);
            p.y = wrap_coord(p.y - dy, GAME_HEIGHT);
            r.rot = p.rot;
            let ne = Entity {
                id,
                position: Some(p),
                renderable: Some(r),
                player,
                asteroid,
                missile: Some(m),
                game_data,
            };
            proof {
                assert(ne == missile_stepped(olde));
            }
            ecs.entities.insert(i, ne);
            proof {
                assert(ecs.entities@ =~= pre.update(i as int, ne));
                assert(wf_entity(ne));
                lemma_count_congruent(pre, ecs.entities@, |en: Entity| has_player(en));
                lemma_count_congruent(pre, ecs.entities@, |en: Entity| has_asteroid(en));
                lemma_count_congruent(pre, ecs.entities@, |en: Entity| has_missile(en));
                lemma_count_congruent(pre, ecs.entities@, |en: Entity| has_game_data(en));
            }
        }
        i = i + 1;
    }
}

/// Asteroid `i` lies within the ship hit radius of player `k`.
pub open spec fn asteroid_hits_player(s: Seq<Entity>, i: int, k: int) -> bool {
    &&& 0 <= i < s.len()
    &&& 0 <= k < s.len()
    &&& has_asteroid(s[i])
    &&& s[i].position is Some
    &&& has_player(s[k])
    &&& s[k].position is Some
    &&& dist2(
        s[i].position->Some_0.x as int,
        s[i].position->Some_0.y as int,
        s[k].position->Some_0.x as int,
        s[k].position->Some_0.y as int,
    ) < PLAYER_HIT_RADIUS * PLAYER_HIT_RADIUS
}

/// Some asteroid is close enough to the ship to hit it.
pub open spec fn some_player_hit(s: Seq<Entity>) -> bool {
    exists|i: int, k: int| asteroid_hits_player(s, i, k)
}

/// Asteroid `i` lies within the strike radius of missile `j`.
pub open spec fn missile_hits_asteroid(s: Seq<Entity>, j: int, i: int) -> bool {
    &&& 0 <= j < s.len()
    &&& 0 <= i < s.len()
    &&& has_missile(s[j])
    &&& s[j].position is Some
    &&& has_asteroid(s[i])
    &&& s[i].position is Some
    &&& dist2(
        s[j].position->Some_0.x as int,
        s[j].position->Some_0.y as int,
        s[i].position->Some_0.x as int,
        s[i].position->Some_0.y as int,
    ) < MISSILE_HIT_RADIUS * MISSILE_HIT_RADIUS
}

/// Missile `j` is close enough to some asteroid to strike it.
pub open spec fn missile_strikes(s: Seq<Entity>, j: int) -> bool {
    exists|i: int| missile_hits_asteroid(s, j, i)
}

/// Index of the ship entity.
pub open spec fn player_index(s: Seq<Entity>) -> int {
    choose|k: int| 0 <= k < s.len() && has_player(s[k])
}

/// The ship's position.
pub open spec fn the_player_pos(s: Seq<Entity>) -> Position {
    s[player_index(s)].position->Some_0
}

/// With at most one ship, any index holding one is `player_index`.
pub proof fn lemma_the_player(s: Seq<Entity>, k: int)
    requires
        count_players(s) <= 1,
        0 <= k < s.len(),
        has_player(s[k]),
    ensures
        player_index(s) == k,
{
    assert(0 <= player_index(s) < s.len() && has_player(s[player_index(s)]));
    lemma_count_unique_index(s, |e: Entity| has_player(e), player_index(s), k);
}

/// Finds the ship, returning its identifier and position.
fn find_player(ecs: &World) -> (r: Option<(u64, Position)>)
    requires
        ecs.wf(),
    ensures
        match r {
            Some(ip) => exists|k: int|
                0 <= k < ecs.entities@.len() && has_player(#[trigger] ecs.entities@[k])
                    && ecs.entities@[k].id == ip.0 && ecs.entities@[k].position == Some(ip.1),
            None => count_players(ecs.entities@) == 0,
        },
{
    let ghost s = ecs.entities@;
    let n = ecs.entities.len();
    let mut i: usize = 0;
    while i < n
        invariant
            ecs.wf(),
            n == s.len(),
            s == ecs.entities@,
            i <= n,
            forall|j: int| 0 <= j < i ==> !has_player(#[trigger] s[j]),
        decreases n - i,
    {
        let er = &ecs.entities[i];
        if er.player.is_some() {
            let p = match &er.position {
                Some(p) => *p,
                None => {
                    proof {
                        assert(false);
                    }
                    Position { x: 0, y: 0, rot: 0 }
                },
            };
            return Some((er.id, p));
        }
        i = i + 1;
    }
    proof {
        lemma_count_zero(s, |e: Entity| has_player(e));
    }
    None
}

/// Reads the session state.
fn read_game_data(ecs: &World) -> (gd: GameData)
    requires
        ecs.wf(),
    ensures
        gd == the_game_data(ecs.entities@),
{
    let ghost s = ecs.entities@;
    let n = ecs.entities.len();
    let mut i: usize = 0;
    while i < n
        invariant
            ecs.wf(),
            n == s.len(),
            s == ecs.entities@,
            i <= n,
            forall|j: int| 0 <= j < i ==> !has_game_data(#[trigger] s[j]),
        decreases n - i,
    {
        let er = &ecs.entities[i];
        match &er.game_data {
            Some(gd) => {
                proof {
                    lemma_the_game_data(s, i as int);
                }
                return *gd;
            },
            None => {},
        }
        i = i + 1;
    }
    proof {
        lemma_count_zero(s, |e: Entity| has_game_data(e));
        assert(false);
    }
    GameData { score: 0, level: 1, god_mode: false }
}

/// Tests every asteroid against the ship; when one is within the hit radius
/// and god mode is off, the ship's identifier is doomed, which is the
/// player-death path: the next tick's controller reloads the world.
fn asteroid_collider(ecs: &World) -> (doomed: Vec<u64>)
    requires
        ecs.wf(),
    ensures
        doomed@.len() <= 1,
        doomed@.len() == 1 <==> (!the_game_data(ecs.entities@).god_mode && some_player_hit(
            ecs.entities@,
        )),
        doomed@.len() == 1 ==> exists|k: int|
            0 <= k < ecs.entities@.len() && has_player(#[trigger] ecs.entities@[k])
                && doomed@[0] == ecs.entities@[k].id,
{
    let ghost s = ecs.entities@;
    let mut doomed: Vec<u64> = Vec::new();
    let player = find_player(ecs);
    match player {
        None => {
            proof {
                if some_player_hit(s) {
                    let (i, k) = choose|i: int, k: int| asteroid_hits_player(s, i, k);
                    lemma_count_ge_one(s, |e: Entity| has_player(e), k);
                }
            }
        },
        Some((pid, ppos)) => {
            let ghost k0 = choose|k: int|
                0 <= k < s.len() && has_player(s[k]) && s[k].id == pid && s[k].position == Some(
                    ppos,
                );
            let gd = read_game_data(ecs);
            if !gd.god_mode {
                let mut hit = false;
                let n = ecs.entities.len();
                let mut i: usize = 0;
                while i < n
                    invariant
                        ecs.wf(),
                        n == s.len(),
                        s == ecs.entities@,
                        i <= n,
                        0 <= k0 < s.len() && has_player(s[k0]) && s[k0].position == Some(ppos),
                        hit <==> exists|ii: int| 0 <= ii < i && asteroid_hits_player(s, ii, k0),
                    decreases n - i,
                {
                    let er = &ecs.entities[i];
                    if er.asteroid.is_some() && er.position.is_some() {
                        let apos = match &er.position {
                            Some(p) => *p,
                            None => {
                                proof {
                                    assert(false);
                                }
                                Position { x: 0, y: 0, rot: 0 }
                            },
                        };
                        let d2 = distance_squared(apos.x, apos.y, ppos.x, ppos.y);
                        if d2 < PLAYER_HIT_RADIUS * PLAYER_HIT_RADIUS {
                            hit = true;
                            proof {
                                assert(asteroid_hits_player(s, i as int, k0));
                            }
                        }
                    }
                    i = i + 1;
                }
                if hit {
                    doomed.push(pid);
                }
                proof {
                    if some_player_hit(s) {
                        let (ii, kk) = choose|ii: int, kk: int| asteroid_hits_player(s, ii, kk);
                        lemma_count_unique_index(s, |e: Entity| has_player(e), kk, k0);
                        assert(asteroid_hits_player(s, ii, k0));
                    }
                }
            }
        },
    }
    doomed
}

/// Tests every missile against every asteroid, in entity order; each missile
/// resolves against at most the first asteroid within its strike radius, and
/// both identifiers are doomed.  Returns the command buffer and the number
/// of strikes.
fn missile_striker(ecs: &World) -> (r: (Vec<u64>, u32))
    requires
        ecs.wf(),
    ensures
        r.1 <= MAX_MISSILES as u32,
        r.1 <= count_missiles(ecs.entities@),
        r.0@.len() == 2 * r.1,
        r.1 > 0 <==> exists|j: int| missile_strikes(ecs.entities@, j),
        forall|idx: int|
            0 <= idx < r.0@.len() ==> exists|k: int|
                0 <= k < ecs.entities@.len() && (#[trigger] r.0@[idx]) == ecs.entities@[k].id && (
                has_missile(ecs.entities@[k]) || has_asteroid(ecs.entities@[k])),
        forall|j: int|
            0 <= j < ecs.entities@.len() && missile_strikes(ecs.entities@, j)
                ==> r.0@.contains(ecs.entities@[j].id) && exists|i: int|
                missile_hits_asteroid(ecs.entities@, j, i) && r.0@.contains(ecs.entities@[i].id),
{
    let ghost s = ecs.entities@;
    let ghost fm = |e: Entity| has_missile(e);
    let mut doomed: Vec<u64> = Vec::new();
    let mut hits: u32 = 0;
    let n = ecs.entities.len();
    let mut j: usize = 0;
    while j < n
        invariant
            ecs.wf(),
            n == s.len(),
            s == ecs.entities@,
            j <= n,
            fm == (|e: Entity| has_missile(e)),
            hits <= count_matching(s.take(j as int), fm),
            doomed@.len() == 2 * hits,
            hits > 0 <==> exists|jj: int| 0 <= jj < j && missile_strikes(s, jj),
            forall|idx: int|
                0 <= idx < doomed@.len() ==> exists|k: int|
                    0 <= k < s.len() && (#[trigger] doomed@[idx]) == s[k].id && (has_missile(s[k])
                        || has_asteroid(s[k])),
            forall|jj: int|
                0 <= jj < j && missile_strikes(s, jj) ==> doomed@.contains(s[jj].id) && exists|i: int|
                    missile_hits_asteroid(s, jj, i) && doomed@.contains(s[i].id),
        decreases n - j,
    {
        proof {
            lemma_count_take_step(s, fm, j as int);
            lemma_count_take_le(s, fm, j as int + 1);
        }
        let is_m = {
            let er = &ecs.entities[j];
            er.missile.is_some() && er.position.is_some()
        };
        if is_m {
            let mpos = match &ecs.entities[j].position {
                Some(p) => *p,
                None => {
                    proof {
                        assert(false);
                    }
                    Position { x: 0, y: 0, rot: 0 }
                },
            };
            let mid = ecs.entities[j].id;
            let mut found: Option<u64> = None;
            let mut i: usize = 0;
            while i < n
                invariant
                    ecs.wf(),
                    n == s.len(),
                    s == ecs.entities@,
                    i <= n,
                    0 <= (j as int) < s.len(),
                    has_missile(s[j as int]),
                    s[j as int].position == Some(mpos),
                    mid == s[j as int].id,
                    match found {
                        Some(aid) => exists|ii: int|
                            missile_hits_asteroid(s, j as int, ii) && aid == s[ii].id,
                        None => forall|ii: int|
                            0 <= ii < i ==> !missile_hits_asteroid(s, j as int, ii),
                    },
                decreases n - i,
            {
                if found.is_none() {
                    let er = &ecs.entities[i];
                    if er.asteroid.is_some() && er.position.is_some() {
                        let apos = match &er.position {
                            Some(p) => *p,
                            None => {
                                proof {
                                    assert(false);
                                }
                                Position { x: 0, y: 0, rot: 0 }
                            },
                        };
                        let d2 = distance_squared(mpos.x, mpos.y, apos.x, apos.y);
                        if d2 < MISSILE_HIT_RADIUS * MISSILE_HIT_RADIUS {
                            found = Some(er.id);
                            proof {
                                assert(missile_hits_asteroid(s, j as int, i as int));
                            }
                        }
                    }
                }
                i = i + 1;
            }
            match found {
                Some(aid) => {
                    let ghost dpre = doomed@;
                    doomed.push(mid);
                    doomed.push(aid);
                    hits = hits + 1;
                    proof {
                        assert(doomed@ == dpre.push(mid).push(aid));
                        assert(doomed@[doomed@.len() - 2] == mid);
                        assert(doomed@[doomed@.len() - 1] == aid);
                        assert(forall|x: u64|
                            dpre.contains(x) ==> #[trigger] doomed@.contains(x)) by {
                            assert forall|x: u64| dpre.contains(x) implies #[trigger] doomed@
                                .contains(x) by {
                                let idx = choose|idx: int| 0 <= idx < dpre.len() && dpre[idx] == x;
                                assert(doomed@[idx] == x);
                            }
                        }
                        assert(missile_strikes(s, j as int));
                        let ii = choose|ii: int|
                            missile_hits_asteroid(s, j as int, ii) && aid == s[ii].id;
                        assert(doomed@[doomed@.len() - 1] == s[ii].id);
                        assert(doomed@.contains(s[ii].id));
                        assert(doomed@.contains(s[j as int].id));
                    }
                },
                None => {
                    proof {
                        if missile_strikes(s, j as int) {
                            let ii = choose|ii: int| missile_hits_asteroid(s, j as int, ii);
                            assert(!missile_hits_asteroid(s, j as int, ii));
                        }
                    }
                },
            }
        } else {
            proof {
                if missile_strikes(s, j as int) {
                    let ii = choose|ii: int| missile_hits_asteroid(s, j as int, ii);
                }
            }
        }
        j = j + 1;
    }
    proof {
        assert(s.take(n as int) =~= s);
        if hits > 0 {
        } else {
            if exists|jj: int| missile_strikes(s, jj) {
                let jj = choose|jj: int| missile_strikes(s, jj);
                let ii = choose|ii: int| missile_hits_asteroid(s, jj, ii);
            }
        }
    }
    (doomed, hits)
}

/// `a + b`, saturating at the largest value.
pub open spec fn sat_add_u32(a: u32, b: u32) -> u32 {
    if a + b > u32::MAX {
        u32::MAX
    } else {
        (a + b) as u32
    }
}

/// What the score award leaves at each slot.
pub open spec fn score_bumped(e: Entity, points: u32) -> Entity {
    if has_game_data(e) {
        let gd = e.game_data->Some_0;
        Entity {
            game_data: Some(
                GameData {
                    score: sat_add_u32(gd.score, points),
                    level: gd.level,
                    god_mode: gd.god_mode,
                },
            ),
            ..e
        }
    } else {
        e
    }
}

/// What a level bump leaves at each slot.
pub open spec fn level_bumped(e: Entity, amount: u32, god: bool) -> Entity {
    if has_game_data(e) {
        let gd = e.game_data->Some_0;
        Entity {
            game_data: Some(
                GameData {
                    score: gd.score,
                    level: sat_add_u32(gd.level, amount),
                    god_mode: gd.god_mode || god,
                },
            ),
            ..e
        }
    } else {
        e
    }
}

/// Adds `points` to the score, saturating.
fn add_score(ecs: &mut World, points: u32)
    requires
        old(ecs).wf(),
    ensures
        final(ecs).wf(),
        final(ecs).next_id == old(ecs).next_id,
        final(ecs).entities@.len() == old(ecs).entities@.len(),
        forall|j: int|
            0 <= j < old(ecs).entities@.len() ==> final(ecs).entities@[j] == score_bumped(
                #[trigger] old(ecs).entities@[j],
                points,
            ),
        the_game_data(final(ecs).entities@) == (GameData {
            score: sat_add_u32(the_game_data(old(ecs).entities@).score, points),
            level: the_game_data(old(ecs).entities@).level,
            god_mode: the_game_data(old(ecs).entities@).god_mode,
        }),
{
    let ghost s = old(ecs).entities@;
    let ghost nid = old(ecs).next_id;
    let n = ecs.entities.len();
    let mut i: usize = 0;
    let ghost mut bumped_at: int = -1;
    while i < n
        invariant
            ecs.wf(),
            n == s.len(),
            i <= n,
            ecs.next_id == nid,
            ecs.entities@.len() == s.len(),
            forall|j: int|
                0 <= j < i ==> ecs.entities@[j] == score_bumped(#[trigger] s[j], points),
            forall|j: int| i <= j < s.len() ==> ecs.entities@[j] == #[trigger] s[j],
        decreases n - i,
    {
        let ghost pre = ecs.entities@;
        let has_gd = ecs.entities[i].game_data.is_some();
        if has_gd {
            let e = ecs.entities.remove(i);
            let ghost olde = e;
            let Entity { id, position, renderable, player, asteroid, missile, game_data } = e;
            let gd = game_data.unwrap();
            let ns = if gd.score > u32::MAX - points {
                u32::MAX
            } else {
                gd.score + points
            };
            let ne = Entity {
                id,
                position,
                renderable,
                player,
                asteroid,
                missile,
                game_data: Some(GameData { score: ns, level: gd.level, god_mode: gd.god_mode }),
            };
            proof {
                assert(ne == score_bumped(olde, points));
            }
            ecs.entities.insert(i, ne);
            proof {
                assert(ecs.entities@ =~= pre.update(i as int, ne));
                assert(wf_entity(ne));
                lemma_count_congruent(pre, ecs.entities@, |en: Entity| has_player(en));
                lemma_count_congruent(pre, ecs.entities@, |en: Entity| has_asteroid(en));
                lemma_count_congruent(pre, ecs.entities@, |en: Entity| has_missile(en));
                lemma_count_congruent(pre, ecs.entities@, |en: Entity| has_game_data(en));
            }
        }
        i = i + 1;
    }
    proof {
        let gi = game_data_index(s);
        assert(0 <= gi < s.len() && has_game_data(s[gi])) by {
            lemma_count_ge_one_converse(s);
        }
        lemma_the_game_data(s, gi);
        lemma_the_game_data(ecs.entities@, gi);
    }
}

/// A count of one yields a matching index for the session state.
proof fn lemma_count_ge_one_converse(s: Seq<Entity>)
    requires
        count_game_data(s) >= 1,
    ensures
        exists|i: int| 0 <= i < s.len() && has_game_data(#[trigger] s[i]),
        0 <= game_data_index(s) < s.len() && has_game_data(s[game_data_index(s)]),
{
    if forall|i: int| 0 <= i < s.len() ==> !has_game_data(#[trigger] s[i]) {
        lemma_count_zero(s, |e: Entity| has_game_data(e));
    }
    assert(exists|i: int| 0 <= i < s.len() && has_game_data(#[trigger] s[i]));
}

/// Raises the level by `amount` (saturating), optionally switching on god
/// mode, and returns the wave size the new level calls for.
fn bump_level(ecs: &mut World, amount: u32, god: bool) -> (wave: u32)
    requires
        old(ecs).wf(),
    ensures
        final(ecs).wf(),
        final(ecs).next_id == old(ecs).next_id,
        final(ecs).entities@.len() == old(ecs).entities@.len(),
        forall|j: int|
            0 <= j < old(ecs).entities@.len() ==> final(ecs).entities@[j] == level_bumped(
                #[trigger] old(ecs).entities@[j],
                amount,
                god,
            ),
        the_game_data(final(ecs).entities@) == (GameData {
            score: the_game_data(old(ecs).entities@).score,
            level: sat_add_u32(the_game_data(old(ecs).entities@).level, amount),
            god_mode: the_game_data(old(ecs).entities@).god_mode || god,
        }),
        wave == the_game_data(final(ecs).entities@).level / 3 + 1,
{
    let ghost s = old(ecs).entities@;
    let ghost nid = old(ecs).next_id;
    let n = ecs.entities.len();
    let mut i: usize = 0;
    let mut wave: u32 = 1;
    while i < n
        invariant
            ecs.wf(),
            n == s.len(),
            i <= n,
            ecs.next_id == nid,
            ecs.entities@.len() == s.len(),
            forall|j: int|
                0 <= j < i ==> ecs.entities@[j] == level_bumped(#[trigger] s[j], amount, god),
            forall|j: int| i <= j < s.len() ==> ecs.entities@[j] == #[trigger] s[j],
            (exists|j: int|
                0 <= j < i && has_game_data(#[trigger] s[j]) && wave == level_bumped(
                    s[j],
                    amount,
                    god,
                ).game_data->Some_0.level / 3 + 1) || forall|j: int|
                0 <= j < i ==> !has_game_data(#[trigger] s[j]),
        decreases n - i,
    {
        let ghost pre = ecs.entities@;
        let has_gd = ecs.entities[i].game_data.is_some();
        if has_gd {
            let e = ecs.entities.remove(i);
            let ghost olde = e;
            let Entity { id, position, renderable, player, asteroid, missile, game_data } = e;
            let gd = game_data.unwrap();
            let nl = if gd.level > u32::MAX - amount {
                u32::MAX
            } else {
                gd.level + amount
            };
            wave = nl / 3 + 1;
            let ne = Entity {
                id,
                position,
                renderable,
                player,
                asteroid,
                missile,
                game_data: Some(
                    GameData { score: gd.score, level: nl, god_mode: gd.god_mode || god },
                ),
            };
            proof {
                assert(ne == level_bumped(olde, amount, god));
            }
            ecs.entities.insert(i, ne);
            proof {
                assert(ecs.entities@ =~= pre.update(i as int, ne));
                assert(wf_entity(ne));
                lemma_count_congruent(pre, ecs.entities@, |en: Entity| has_player(en));
                lemma_count_congruent(pre, ecs.entities@, |en: Entity| has_asteroid(en));
                lemma_count_congruent(pre, ecs.entities@, |en: Entity| has_missile(en));
                lemma_count_congruent(pre, ecs.entities@, |en: Entity| has_game_data(en));
                assert(has_game_data(s[i as int]) && wave == level_bumped(
                    s[i as int],
                    amount,
                    god,
                ).game_data->Some_0.level / 3 + 1);
            }
        }
        i = i + 1;
    }
    proof {
        let gi = game_data_index(s);
        lemma_count_ge_one_converse(s);
        lemma_the_game_data(s, gi);
        lemma_the_game_data(ecs.entities@, gi);
        if forall|j: int| 0 <= j < s.len() ==> !has_game_data(#[trigger] s[j]) {
            lemma_count_zero(s, |e: Entity| has_game_data(e));
        }
        let j = choose|j: int|
            0 <= j < s.len() && has_game_data(#[trigger] s[j]) && wave == level_bumped(
                s[j],
                amount,
                god,
            ).game_data->Some_0.level / 3 + 1;
        lemma_the_game_data(ecs.entities@, j);
    }
    wave
}

/// What a spawned wave asteroid must look like: placed inside the margins,
/// no closer than the spawn exclusion distance to the ship, drawn at 128.
pub open spec fn wave_asteroid_ok(e: Entity, ppos: Position) -> bool {
    &&& e.position is Some
    &&& is_asteroid_entity(e, e.id as int, e.position->Some_0, 128)
    &&& SPAWN_MARGIN <= e.position->Some_0.x < GAME_WIDTH - SPAWN_MARGIN
    &&& SPAWN_MARGIN <= e.position->Some_0.y < GAME_HEIGHT - SPAWN_MARGIN
    &&& dist2(
        e.position->Some_0.x as int,
        e.position->Some_0.y as int,
        ppos.x as int,
        ppos.y as int,
    ) >= MIN_SPAWN_DIST * MIN_SPAWN_DIST
}

/// What the controller leaves at each surviving slot: the cheat bump, then
/// the level advance when the field was empty.  Slots without session state
/// pass through unchanged.
pub open spec fn controller_stepped(e: Entity, keys: InputState, empty_field: bool) -> Entity {
    level_bumped(
        level_bumped(
            e,
            if keys.cheat {
                9998
            } else {
                0
            },
            keys.cheat,
        ),
        if empty_field {
            1
        } else {
            0
        },
        false,
    )
}

/// A zero-amount level bump without god mode changes nothing.
proof fn lemma_level_bump_zero(e: Entity)
    ensures
        level_bumped(e, 0, false) == e,
{
    if has_game_data(e) {
        assert(level_bumped(e, 0, false).game_data == e.game_data);
    }
}

/// The round/progression controller, run first each tick.  A world with no
/// ship is wiped and reloaded (the player-death path).  The debug cheat key
/// then inflates the level by 9998 and switches on god mode.  A world with
/// no asteroid advances the level by one and spawns a wave of
/// `level / 3 + 1` asteroids, each at least the exclusion distance from the
/// ship.
fn run_controller(ecs: &mut World, keys: &InputState)
    requires
        old(ecs).wf(),
        old(ecs).next_id < MAX_ID,
    ensures
        final(ecs).wf(),
        final(ecs).next_id >= old(ecs).next_id,
        final(ecs).next_id <= old(ecs).next_id + 3 + 0x6000_0000u64,
        count_players(old(ecs).entities@) == 0 ==> {
            &&& final(ecs).entities@.len() == 3
            &&& is_start_player_entity(final(ecs).entities@[0], old(ecs).next_id as int)
            &&& is_asteroid_entity(
                final(ecs).entities@[1],
                old(ecs).next_id + 1,
                spec_seed_position(),
                64,
            )
            &&& final(ecs).entities@[2].game_data == Some(
                GameData {
                    score: 0,
                    level: if keys.cheat {
                        9999
                    } else {
                        1
                    },
                    god_mode: keys.cheat,
                },
            )
            &&& final(ecs).entities@[2].position is None
            &&& final(ecs).entities@[2].player is None
            &&& final(ecs).entities@[2].asteroid is None
            &&& final(ecs).entities@[2].missile is None
            &&& count_players(final(ecs).entities@) == 1
            &&& count_asteroids(final(ecs).entities@) == 1
            &&& count_missiles(final(ecs).entities@) == 0
        },
        count_players(old(ecs).entities@) >= 1 ==> {
            &&& final(ecs).entities@.len() >= old(ecs).entities@.len()
            &&& forall|j: int|
                0 <= j < old(ecs).entities@.len() ==> {
                    let e0 = #[trigger] old(ecs).entities@[j];
                    let e1 = final(ecs).entities@[j];
                    &&& e1.id == e0.id
                    &&& e1.position == e0.position
                    &&& e1.renderable == e0.renderable
                    &&& e1.player == e0.player
                    &&& e1.asteroid == e0.asteroid
                    &&& e1.missile == e0.missile
                    &&& (e1.game_data is Some <==> e0.game_data is Some)
                }
            &&& forall|j: int|
                old(ecs).entities@.len() <= j < final(ecs).entities@.len()
                    ==> wave_asteroid_ok(
                    #[trigger] final(ecs).entities@[j],
                    the_player_pos(old(ecs).entities@),
                )
            &&& count_players(final(ecs).entities@) == count_players(old(ecs).entities@)
            &&& count_missiles(final(ecs).entities@) == count_missiles(old(ecs).entities@)
            &&& forall|j: int|
                0 <= j < old(ecs).entities@.len() ==> final(ecs).entities@[j]
                    == controller_stepped(
                    #[trigger] old(ecs).entities@[j],
                    *keys,
                    count_asteroids(old(ecs).entities@) == 0,
                )
            &&& the_game_data(final(ecs).entities@).score == the_game_data(
                old(ecs).entities@,
            ).score
            &&& the_game_data(final(ecs).entities@).level == sat_add_u32(
                sat_add_u32(
                    the_game_data(old(ecs).entities@).level,
                    if keys.cheat {
                        9998
                    } else {
                        0
                    },
                ),
                if count_asteroids(old(ecs).entities@) == 0 {
                    1
                } else {
                    0
                },
            )
            &&& the_game_data(final(ecs).entities@).level >= the_game_data(
                old(ecs).entities@,
            ).level
            &&& the_game_data(final(ecs).entities@).god_mode == (the_game_data(
                old(ecs).entities@,
            ).god_mode || keys.cheat)
            &&& (count_asteroids(old(ecs).entities@) == 0 ==> final(ecs).entities@.len()
                == old(ecs).entities@.len() + the_game_data(final(ecs).entities@).level / 3 + 1)
            &&& (count_asteroids(old(ecs).entities@) > 0 ==> final(ecs).entities@.len()
                == old(ecs).entities@.len())
        },
{
    let ghost s0 = old(ecs).entities@;
    let nplayers = ecs.num_players();
    if nplayers == 0 {
        ecs.delete_all();
        load_world(ecs);
    }
    let ghost s1 = ecs.entities@;
    let cheat = keys.is_key_pressed(Key::Cheat);
    if cheat {
        bump_level(ecs, 9998, true);
    }
    let ghost s2 = ecs.entities@;
    proof {
        lemma_count_congruent(s1, s2, |en: Entity| has_asteroid(en));
        lemma_count_congruent(s1, s2, |en: Entity| has_player(en));
        lemma_count_congruent(s1, s2, |en: Entity| has_missile(en));
    }
    let nasteroids = ecs.num_asteroids();
    if nasteroids == 0 {
        let wave = bump_level(ecs, 1, false);
        let ghost s3 = ecs.entities@;
        let pp = find_player(ecs);
        let (pid, ppos) = match pp {
            Some(x) => x,
            None => {
                proof {
                    lemma_count_congruent(s2, s3, |en: Entity| has_player(en));
                    if cheat {
                        lemma_count_congruent(s1, s2, |en: Entity| has_player(en));
                    }
                    assert(count_players(s1) >= 1);
                    assert(false);
                }
                (0, Position { x: 0, y: 0, rot: 0 })
            },
        };
        let ghost base = ecs.entities@;
        let ghost bnid = ecs.next_id;
        let ghost blen = ecs.entities@.len();
        let ghost bast = count_asteroids(base);
        let mut spawned: u32 = 0;
        while spawned < wave
            invariant
                ecs.wf(),
                spawned <= wave,
                wave <= 0x5556_0000u32,
                bnid < MAX_ID + 4,
                ecs.next_id == bnid + spawned,
                ecs.entities@.len() == blen + spawned,
                blen == base.len(),
                0 <= ppos.x < GAME_WIDTH,
                0 <= ppos.y < GAME_HEIGHT,
                forall|j: int| 0 <= j < blen ==> ecs.entities@[j] == #[trigger] base[j],
                forall|j: int|
                    blen <= j < ecs.entities@.len() ==> wave_asteroid_ok(
                        #[trigger] ecs.entities@[j],
                        ppos,
                    ),
                count_players(ecs.entities@) == count_players(base),
                count_missiles(ecs.entities@) == count_missiles(base),
                count_asteroids(ecs.entities@) == bast + spawned,
                count_game_data(ecs.entities@) == 1,
            decreases wave - spawned,
        {
            let pa = find_spawn_position(ppos.x, ppos.y);
            let ghost pre = ecs.entities@;
            create_asteroid(ecs, Position { x: pa.x, y: pa.y, rot: pa.rot }, pa.size);
            spawned = spawned + 1;
            proof {
                assert(forall|j: int|
                    0 <= j < pre.len() ==> ecs.entities@[j] == #[trigger] pre[j]);
                assert(wave_asteroid_ok(ecs.entities@.last(), ppos));
            }
        }
        proof {
            let sf = ecs.entities@;
            lemma_count_ge_one_converse(s3);
            let gi = game_data_index(s3);
            lemma_the_game_data(sf, gi);
            lemma_count_congruent(s2, s3, |en: Entity| has_player(en));
            lemma_count_congruent(s2, s3, |en: Entity| has_missile(en));
            if nplayers >= 1 {
                let k = choose|k: int|
                    0 <= k < s3.len() && has_player(s3[k]) && s3[k].id == pid && s3[k].position
                        == Some(ppos);
                assert(has_player(s0[k]) && s0[k].position == Some(ppos));
                lemma_the_player(s0, k);
                assert forall|j: int| 0 <= j < s0.len() implies {
                    let e0 = #[trigger] s0[j];
                    let e1 = sf[j];
                    &&& e1.id == e0.id
                    &&& e1.position == e0.position
                    &&& e1.renderable == e0.renderable
                    &&& e1.player == e0.player
                    &&& e1.asteroid == e0.asteroid
                    &&& e1.missile == e0.missile
                    &&& (e1.game_data is Some <==> e0.game_data is Some)
                    &&& e1 == controller_stepped(e0, *keys, count_asteroids(s0) == 0)
                } by {
                    assert(s2[j] == level_bumped(s1[j], 9998, true) || s2[j] == s1[j]);
                    assert(s3[j] == level_bumped(s2[j], 1, false));
                    assert(sf[j] == s3[j]);
                    lemma_level_bump_zero(s1[j]);
                }
            }
        }
    } else {
        proof {
            let sf = ecs.entities@;
            if nplayers == 0 {
                assert(sf.len() == 3);
                assert(s2[0] == level_bumped(s1[0], 9998, true) || s2[0] == s1[0]);
                assert(s2[1] == level_bumped(s1[1], 9998, true) || s2[1] == s1[1]);
                assert(s2[2] == level_bumped(s1[2], 9998, true) || s2[2] == s1[2]);
                assert(is_start_player_entity(sf[0], old(ecs).next_id as int));
                assert(is_asteroid_entity(sf[1], old(ecs).next_id + 1, spec_seed_position(), 64));
            } else {
                assert(count_asteroids(s0) == count_asteroids(s2));
                assert forall|j: int| 0 <= j < s0.len() implies {
                    let e0 = #[trigger] s0[j];
                    let e1 = sf[j];
                    &&& e1.id == e0.id
                    &&& e1.position == e0.position
                    &&& e1.renderable == e0.renderable
                    &&& e1.player == e0.player
                    &&& e1.asteroid == e0.asteroid
                    &&& e1.missile == e0.missile
                    &&& (e1.game_data is Some <==> e0.game_data is Some)
                    &&& e1 == controller_stepped(e0, *keys, count_asteroids(s0) == 0)
                } by {
                    assert(s2[j] == level_bumped(s1[j], 9998, true) || s2[j] == s1[j]);
                    lemma_level_bump_zero(s1[j]);
                    lemma_level_bump_zero(s2[j]);
                }
                if !cheat {
                    lemma_count_ge_one_converse(s0);
                    let gi = game_data_index(s0);
                    lemma_the_game_data(s2, gi);
                }
            }
        }
    }
}

/// Counting ignores a suffix with no matches.
proof fn lemma_count_extend(s: Seq<Entity>, f: spec_fn(Entity) -> bool, k: int)
    requires
        0 <= k <= s.len(),
        forall|j: int| k <= j < s.len() ==> !f(#[trigger] s[j]),
    ensures
        count_matching(s, f) == count_matching(s.take(k), f),
    decreases s.len() - k,
{
    if k == s.len() {
        assert(s.take(k) =~= s);
    } else {
        lemma_count_take_step(s, f, k);
        lemma_count_extend(s, f, k + 1);
    }
}

/// All four component counts agree on slotwise-congruent stores.
proof fn lemma_counts_pointwise(sx: Seq<Entity>, sy: Seq<Entity>)
    requires
        sx.len() == sy.len(),
        forall|j: int|
            0 <= j < sx.len() ==> {
                &&& has_player(#[trigger] sy[j]) == has_player(#[trigger] sx[j])
                &&& has_asteroid(sy[j]) == has_asteroid(sx[j])
                &&& has_missile(sy[j]) == has_missile(sx[j])
                &&& has_game_data(sy[j]) == has_game_data(sx[j])
            },
    ensures
        count_players(sy) == count_players(sx),
        count_asteroids(sy) == count_asteroids(sx),
        count_missiles(sy) == count_missiles(sx),
        count_game_data(sy) == count_game_data(sx),
{
    lemma_count_congruent(sx, sy, |e: Entity| has_player(e));
    lemma_count_congruent(sx, sy, |e: Entity| has_asteroid(e));
    lemma_count_congruent(sx, sy, |e: Entity| has_missile(e));
    lemma_count_congruent(sx, sy, |e: Entity| has_game_data(e));
}

/// The session state carries across a transform that keeps each slot's
/// session record and appends only slots without one.
proof fn lemma_game_data_same(sa: Seq<Entity>, sb: Seq<Entity>)
    requires
        count_game_data(sa) == 1,
        sa.len() <= sb.len(),
        forall|j: int| 0 <= j < sa.len() ==> (#[trigger] sb[j]).game_data == sa[j].game_data,
        forall|j: int| sa.len() <= j < sb.len() ==> !has_game_data(#[trigger] sb[j]),
    ensures
        count_game_data(sb) == 1,
        the_game_data(sb) == the_game_data(sa),
{
    let fg = |e: Entity| has_game_data(e);
    lemma_count_extend(sb, fg, sa.len() as int);
    lemma_count_congruent(sa, sb.take(sa.len() as int), fg);
    lemma_count_ge_one_converse(sa);
    let gi = game_data_index(sa);
    lemma_the_game_data(sa, gi);
    lemma_the_game_data(sb, gi);
}

/// Identifiers, component presence, and session records carry through the
/// movement, collision and scoring phases slot by slot.
proof fn lemma_skeleton(sf: Seq<Entity>, sa: Seq<Entity>, sm: Seq<Entity>, sb: Seq<Entity>, points: u32)
    requires
        sa.len() == sf.len(),
        sm.len() == sf.len(),
        sb.len() == sf.len(),
        forall|j: int| 0 <= j < sf.len() ==> #[trigger] sa[j] == after_asteroid_mover(sf[j]),
        forall|j: int| 0 <= j < sf.len() ==> #[trigger] sm[j] == after_missile_mover(sa[j]),
        forall|j: int| 0 <= j < sf.len() ==> #[trigger] sb[j] == score_bumped(sm[j], points),
    ensures
        forall|j: int| 0 <= j < sf.len() ==> {
            let ef = #[trigger] sf[j];
            &&& sa[j].id == ef.id && sm[j].id == ef.id && sb[j].id == ef.id
            &&& has_player(sa[j]) == has_player(ef) && has_player(sm[j]) == has_player(ef)
                && has_player(sb[j]) == has_player(ef)
            &&& has_asteroid(sa[j]) == has_asteroid(ef) && has_asteroid(sm[j]) == has_asteroid(ef)
                && has_asteroid(sb[j]) == has_asteroid(ef)
            &&& has_missile(sa[j]) == has_missile(ef) && has_missile(sm[j]) == has_missile(ef)
                && has_missile(sb[j]) == has_missile(ef)
            &&& has_game_data(sa[j]) == has_game_data(ef) && has_game_data(sm[j])
                == has_game_data(ef) && has_game_data(sb[j]) == has_game_data(ef)
            &&& sm[j].game_data == ef.game_data
        },
{
    assert forall|j: int| 0 <= j < sf.len() implies {
        let ef = #[trigger] sf[j];
        &&& sa[j].id == ef.id && sm[j].id == ef.id && sb[j].id == ef.id
        &&& has_player(sa[j]) == has_player(ef) && has_player(sm[j]) == has_player(ef)
            && has_player(sb[j]) == has_player(ef)
        &&& has_asteroid(sa[j]) == has_asteroid(ef) && has_asteroid(sm[j]) == has_asteroid(ef)
            && has_asteroid(sb[j]) == has_asteroid(ef)
        &&& has_missile(sa[j]) == has_missile(ef) && has_missile(sm[j]) == has_missile(ef)
            && has_missile(sb[j]) == has_missile(ef)
        &&& has_game_data(sa[j]) == has_game_data(ef) && has_game_data(sm[j]) == has_game_data(
            ef,
        ) && has_game_data(sb[j]) == has_game_data(ef)
        &&& sm[j].game_data == ef.game_data
    } by {
        assert(sa[j] == after_asteroid_mover(sf[j]));
        assert(sm[j] == after_missile_mover(sa[j]));
        assert(sb[j] == score_bumped(sm[j], points));
    }
}

/// No doomed identifier names a session-state slot; with an empty ship
/// buffer, none names a ship slot either.
proof fn lemma_doomed_safe(
    sa: Seq<Entity>,
    sm: Seq<Entity>,
    sb: Seq<Entity>,
    dp: Seq<u64>,
    dm: Seq<u64>,
    dseq: Seq<u64>,
)
    requires
        sa.len() == sb.len(),
        sm.len() == sb.len(),
        forall|j: int|
            0 <= j < sb.len() ==> (#[trigger] sa[j]).id == sb[j].id && has_player(sa[j])
                == has_player(sb[j]),
        forall|j: int|
            0 <= j < sb.len() ==> (#[trigger] sm[j]).id == sb[j].id && has_missile(sm[j])
                == has_missile(sb[j]) && has_asteroid(sm[j]) == has_asteroid(sb[j]),
        sorted_ids(sb),
        forall|j: int| 0 <= j < sb.len() ==> wf_entity(#[trigger] sb[j]),
        dseq == dp + dm,
        dp.len() <= 1,
        dp.len() == 1 ==> exists|k: int|
            0 <= k < sa.len() && has_player(#[trigger] sa[k]) && dp[0] == sa[k].id,
        forall|idx: int|
            0 <= idx < dm.len() ==> exists|k: int|
                0 <= k < sm.len() && (#[trigger] dm[idx]) == sm[k].id && (has_missile(sm[k])
                    || has_asteroid(sm[k])),
    ensures
        forall|j: int|
            0 <= j < sb.len() && has_game_data(#[trigger] sb[j]) ==> !dseq.contains(sb[j].id),
        dp.len() == 0 ==> forall|j: int|
            0 <= j < sb.len() && has_player(#[trigger] sb[j]) ==> !dseq.contains(sb[j].id),
{
    assert forall|j: int|
        0 <= j < sb.len() && has_game_data(#[trigger] sb[j]) implies !dseq.contains(sb[j].id) by {
        if dseq.contains(sb[j].id) {
            let idx = choose|idx: int| 0 <= idx < dseq.len() && dseq[idx] == sb[j].id;
            if idx < dp.len() {
                let k = choose|k: int|
                    0 <= k < sa.len() && has_player(#[trigger] sa[k]) && dp[0] == sa[k].id;
                assert(sb[k].id == sb[j].id);
                assert(k == j);
                assert(wf_entity(sb[j]));
            } else {
                assert(dm[idx - dp.len()] == sb[j].id);
                let k = choose|k: int|
                    0 <= k < sm.len() && dm[idx - dp.len()] == (#[trigger] sm[k]).id && (
                    has_missile(sm[k]) || has_asteroid(sm[k]));
                assert(sb[k].id == sb[j].id);
                assert(k == j);
                assert(wf_entity(sb[j]));
            }
        }
    }
    if dp.len() == 0 {
        assert forall|j: int|
            0 <= j < sb.len() && has_player(#[trigger] sb[j]) implies !dseq.contains(sb[j].id) by {
            if dseq.contains(sb[j].id) {
                let idx = choose|idx: int| 0 <= idx < dseq.len() && dseq[idx] == sb[j].id;
                assert(idx >= dp.len());
                assert(dm[idx - dp.len()] == sb[j].id);
                let k = choose|k: int|
                    0 <= k < sm.len() && dm[idx - dp.len()] == (#[trigger] sm[k]).id && (
                    has_missile(sm[k]) || has_asteroid(sm[k]));
                assert(sb[k].id == sb[j].id);
                assert(k == j);
                assert(wf_entity(sb[j]));
            }
        }
    }
}

/// A freshly loaded ship stands still: with no carried velocity and no
/// pending impulse, integration leaves its position unchanged.
proof fn lemma_still_player_step(e: Entity, k1: InputState)
    requires
        e.player == Some(Player { impulse: Vec2 { x: 0, y: 0 }, cur_speed: Vec2 { x: 0, y: 0 } }),
        e.position == Some(spec_start_position()),
    ensures
        player_stepped(e, k1).position->Some_0.x == 650000,
        player_stepped(e, k1).position->Some_0.y == 250000,
        player_stepped(e, k1).asteroid == e.asteroid,
        player_stepped(e, k1).missile == e.missile,
        player_stepped(e, k1).player is Some,
{
    let p0 = e.player->Some_0;
    assert(mul_div_toward_zero(0, FRICTION_NUM as int, FRICTION_DEN as int) == 0);
    assert(integrated_speed(p0) == (0int, 0int));
    assert((0int) * (0int) + (0int) * (0int) <= MAX_SPEED * MAX_SPEED) by (nonlinear_arith);
    assert(clamped_speed(p0) == integrated_speed(p0));
    assert(wrap_val(650000, GAME_WIDTH as int) == 650000);
    assert(wrap_val(250000, GAME_HEIGHT as int) == 250000);
}

/// On a reload tick no collision fires: the only asteroid is the seed,
/// which sits and stays far both from the start position and from any
/// missile fired from it on the same tick.
#[verifier::rlimit(100)]
proof fn lemma_reload_no_hit(
    sc: Seq<Entity>,
    sp: Seq<Entity>,
    sf: Seq<Entity>,
    sa: Seq<Entity>,
    sm: Seq<Entity>,
    k1: InputState,
)
    requires
        sc.len() == 3,
        is_start_player_entity(sc[0], sc[0].id as int),
        is_asteroid_entity(sc[1], sc[1].id as int, spec_seed_position(), 64),
        sc[2].player is None && sc[2].asteroid is None && sc[2].missile is None,
        sp.len() == 3,
        forall|j: int| 0 <= j < 3 ==> sp[j] == after_player_system(#[trigger] sc[j], k1),
        sf.len() == 3 || sf.len() == 4,
        forall|j: int| 0 <= j < 3 ==> #[trigger] sf[j] == sp[j],
        sf.len() == 4 ==> {
            let m = sf[3];
            &&& m.asteroid is None
            &&& m.player is None
            &&& m.position is Some
            &&& m.position->Some_0.x == 650000
            &&& m.position->Some_0.y == 250000
            &&& 0 <= m.position->Some_0.rot < FULL_TURN
            &&& m.missile is Some ==> 0 <= m.missile->Some_0.speed <= MISSILE_SPEED
        },
        sa.len() == sf.len(),
        forall|j: int| 0 <= j < sa.len() ==> #[trigger] sa[j] == after_asteroid_mover(sf[j]),
        sm.len() == sa.len(),
        forall|j: int| 0 <= j < sa.len() ==> #[trigger] sm[j] == after_missile_mover(sa[j]),
    ensures
        !some_player_hit(sa),
        forall|j: int| !missile_strikes(sm, j),
{
    lemma_still_player_step(sc[0], k1);
    assert(sp[0] == player_stepped(sc[0], k1));
    assert(sp[1] == sc[1] && sp[2] == sc[2]);
    assert(sa[0] == sf[0] && sa[2] == sf[2]);
    if sf.len() == 4 {
        assert(sa[3] == sf[3]);
    }
    assert(sa[1] == asteroid_stepped(sc[1]));
    lemma_sin_cos_bounds(45000);
    lemma_mul_div_unit(sin_milli(45000), ASTEROID_SPEED as int);
    lemma_mul_div_unit(cos_milli(45000), ASTEROID_SPEED as int);
    let ap = sa[1].position->Some_0;
    assert(397500 <= ap.x <= 402500 && 232500 <= ap.y <= 237500);
    if some_player_hit(sa) {
        let (i, k) = choose|i: int, k: int| asteroid_hits_player(sa, i, k);
        assert(i == 1);
        assert(k == 0);
        let px = sa[0].position->Some_0.x;
        assert(px == 650000);
        assert(dist2(ap.x as int, ap.y as int, px as int, sa[0].position->Some_0.y as int)
            >= PLAYER_HIT_RADIUS * PLAYER_HIT_RADIUS) by (nonlinear_arith)
            requires
                397500 <= ap.x <= 402500,
                px == 650000,
        ;
        assert(false);
    }
    assert(sm[0] == sa[0] && sm[1] == sa[1] && sm[2] == sa[2]);
    assert forall|j: int| !missile_strikes(sm, j) by {
        if missile_strikes(sm, j) {
            let i = choose|i: int| missile_hits_asteroid(sm, j, i);
            assert(sm.len() == 4 && j == 3);
            assert(i == 1);
            let m3 = sm[3];
            if full_missile(sa[3]) {
                let mp = sa[3].position->Some_0;
                lemma_sin_cos_bounds(mp.rot as int);
                lemma_mul_div_unit(sin_milli(mp.rot as int), sa[3].missile->Some_0.speed as int);
                lemma_mul_div_unit(cos_milli(mp.rot as int), sa[3].missile->Some_0.speed as int);
                assert(m3 == missile_stepped(sa[3]));
            }
            let q = m3.position->Some_0;
            assert(645000 <= q.x <= 655000 && 245000 <= q.y <= 255000);
            assert(dist2(q.x as int, q.y as int, ap.x as int, ap.y as int)
                >= MISSILE_HIT_RADIUS * MISSILE_HIT_RADIUS) by (nonlinear_arith)
                requires
                    645000 <= q.x <= 655000,
                    397500 <= ap.x <= 402500,
            ;
            assert(false);
        }
    }
}

/// One simulation tick, in the fixed scheduler order: the progression
/// controller, ship control and integration (with missile firing), asteroid
/// movement, the asteroid-ship collision check, missile movement, the
/// missile-asteroid collision check with scoring, and one atomic commit of
/// every deferred destruction.
///
/// The contract carries the tick-boundary invariants: the committed world is
/// well formed (positions on the field, headings normalized, exactly one
/// session-state entity, at most one ship, at most `MAX_MISSILES` missiles);
/// score and level never decrease on a tick that starts with a ship; and a
/// tick that starts with no ship ends with exactly one, because the reload
/// places the ship far from every asteroid it loads.
/// The score awarded for `hits` striking missiles.
pub open spec fn award_points(hits: u32) -> u32 {
    (hits * SCORE_AWARD) as u32
}

/// Relates the committed world `sz` of a tick that starts with a live ship
/// to the entry world `s0` and the held keys.  `sa` is the world after the
/// controller, ship control, missile firing and asteroid movement; `hits`
/// the number of striking missiles; `dp` and `dm` the command buffers the
/// two collision checks filled.  The missile mover and the score award are
/// the two `map_values`, and the commit removes exactly the doomed
/// identifiers.
pub open spec fn tick_commit_rel(
    s0: Seq<Entity>,
    keys: InputState,
    sz: Seq<Entity>,
    sa: Seq<Entity>,
    hits: u32,
    dp: Seq<u64>,
    dm: Seq<u64>,
) -> bool {
    let empty = count_asteroids(s0) == 0;
    let n0 = s0.len() as int;
    let lvl = sat_add_u32(
        sat_add_u32(
            the_game_data(s0).level,
            if keys.cheat {
                9998
            } else {
                0
            },
        ),
        if empty {
            1
        } else {
            0
        },
    );
    let nw: int = if empty {
        lvl as int / 3 + 1
    } else {
        0
    };
    let fired = keys.fire && count_missiles(s0) < MAX_MISSILES;
    let points = award_points(hits);
    let sm = sa.map_values(|e: Entity| after_missile_mover(e));
    let sb = sm.map_values(|e: Entity| score_bumped(e, points));
    let god = the_game_data(s0).god_mode || keys.cheat;
    &&& sa.len() == n0 + nw + if fired {
        1int
    } else {
        0int
    }
    &&& forall|j: int|
        0 <= j < n0 ==> #[trigger] sa[j] == after_asteroid_mover(
            after_player_system(controller_stepped(s0[j], keys, empty), keys),
        )
    &&& forall|j: int|
        n0 <= j < n0 + nw ==> exists|a: Entity|
            wave_asteroid_ok(a, the_player_pos(s0)) && #[trigger] sa[j] == after_asteroid_mover(a)
    &&& fired ==> is_missile_entity(
        sa.last(),
        sa.last().id as int,
        player_stepped(s0[player_index(s0)], keys).position->Some_0,
    )
    &&& hits <= MAX_MISSILES as u32
    &&& hits as int <= count_missiles(s0) + if fired {
        1int
    } else {
        0int
    }
    &&& (hits > 0 <==> exists|j: int| missile_strikes(sm, j))
    &&& dm.len() == 2 * hits
    &&& forall|idx: int|
        0 <= idx < dm.len() ==> exists|k: int|
            0 <= k < sm.len() && (#[trigger] dm[idx]) == sm[k].id && (has_missile(sm[k])
                || has_asteroid(sm[k]))
    &&& forall|j: int|
        0 <= j < sm.len() && missile_strikes(sm, j) ==> dm.contains((#[trigger] sm[j]).id)
            && exists|i: int| missile_hits_asteroid(sm, j, i) && dm.contains(sm[i].id)
    &&& dp.len() <= 1
    &&& (dp.len() == 1 <==> (!god && some_player_hit(sa)))
    &&& (dp.len() == 1 ==> exists|k: int|
        0 <= k < sa.len() && has_player(#[trigger] sa[k]) && dp[0] == sa[k].id)
    &&& sz == remove_doomed(sb, dp + dm)
    &&& (god || !some_player_hit(sa)) ==> count_players(sz) == count_players(s0)
    &&& the_game_data(sz).score == sat_add_u32(the_game_data(s0).score, points)
}

/// Shared commit reasoning of the tick: structure, counts and session
/// state carry from the scored world to the committed one.
#[verifier::rlimit(100)]
proof fn lemma_commit_shared(
    sc: Seq<Entity>,
    sp: Seq<Entity>,
    sf: Seq<Entity>,
    sa: Seq<Entity>,
    sm: Seq<Entity>,
    sb: Seq<Entity>,
    sz: Seq<Entity>,
    k1: InputState,
    pushed: bool,
    points: u32,
    dp: Seq<u64>,
    dm: Seq<u64>,
    nid: u64,
)
    requires
        count_game_data(sc) == 1,
        sp.len() == sc.len(),
        forall|j: int| 0 <= j < sc.len() ==> #[trigger] sp[j] == after_player_system(sc[j], k1),
        pushed ==> sf.len() == sp.len() + 1 && sf == sp.push(sf.last()) && !has_game_data(
            sf.last(),
        ),
        !pushed ==> sf == sp,
        sa.len() == sf.len(),
        forall|j: int| 0 <= j < sf.len() ==> #[trigger] sa[j] == after_asteroid_mover(sf[j]),
        sm.len() == sa.len(),
        forall|j: int| 0 <= j < sa.len() ==> #[trigger] sm[j] == after_missile_mover(sa[j]),
        sb.len() == sm.len(),
        forall|j: int| 0 <= j < sm.len() ==> #[trigger] sb[j] == score_bumped(sm[j], points),
        sorted_ids(sb),
        forall|i: int| 0 <= i < sb.len() ==> wf_entity(#[trigger] sb[i]),
        ids_below(sb, nid),
        count_game_data(sb) == 1,
        count_players(sb) <= 1,
        count_missiles(sb) <= MAX_MISSILES,
        dp.len() <= 1,
        dp.len() == 1 ==> exists|k: int|
            0 <= k < sa.len() && has_player(#[trigger] sa[k]) && dp[0] == sa[k].id,
        forall|idx: int|
            0 <= idx < dm.len() ==> exists|k: int|
                0 <= k < sm.len() && (#[trigger] dm[idx]) == sm[k].id && (has_missile(sm[k])
                    || has_asteroid(sm[k])),
        sz == remove_doomed(sb, dp + dm),
    ensures
        forall|i: int| 0 <= i < sz.len() ==> wf_entity(#[trigger] sz[i]),
        sorted_ids(sz),
        ids_below(sz, nid),
        count_game_data(sz) == 1,
        count_players(sz) <= 1,
        count_missiles(sz) <= MAX_MISSILES,
        the_game_data(sz) == the_game_data(sb),
        the_game_data(sm) == the_game_data(sc),
        the_game_data(sa) == the_game_data(sc),
{
    let dseq = dp + dm;
    lemma_skeleton(sf, sa, sm, sb, points);
    assert forall|j: int|
        0 <= j < sb.len() && has_game_data(#[trigger] sb[j]) implies !dseq.contains(sb[j].id) by {
        if dseq.contains(sb[j].id) {
            let idx = choose|idx: int| 0 <= idx < dseq.len() && dseq[idx] == sb[j].id;
            if idx < dp.len() {
                let k = choose|k: int|
                    0 <= k < sa.len() && has_player(#[trigger] sa[k]) && dp[0] == sa[k].id;
                assert(sb[k].id == sb[j].id);
                assert(k == j);
                assert(wf_entity(sb[j]));
            } else {
                assert(dm[idx - dp.len()] == sb[j].id);
                let k = choose|k: int|
                    0 <= k < sm.len() && dm[idx - dp.len()] == (#[trigger] sm[k]).id && (
                    has_missile(sm[k]) || has_asteroid(sm[k]));
                assert(sb[k].id == sb[j].id);
                assert(k == j);
                assert(wf_entity(sb[j]));
            }
        }
    }
    lemma_remove_from(sb, dseq);
    lemma_remove_sorted(sb, dseq);
    assert forall|k: int| 0 <= k < sz.len() implies wf_entity(#[trigger] sz[k]) && sz[k].id
        < nid by {
        let i = choose|i: int| 0 <= i < sb.len() && sz[k] == sb[i];
        assert(wf_entity(sb[i]));
        assert(sb[i].id < nid);
    }
    lemma_remove_count_keep(sb, dseq, |e: Entity| has_game_data(e));
    lemma_remove_count_le(sb, dseq, |e: Entity| has_player(e));
    lemma_remove_count_le(sb, dseq, |e: Entity| has_missile(e));
    lemma_count_ge_one_converse(sb);
    let gib = game_data_index(sb);
    lemma_the_game_data(sb, gib);
    lemma_remove_keeps(sb, dseq, gib);
    let kz = choose|kz: int| 0 <= kz < sz.len() && #[trigger] sz[kz] == sb[gib];
    lemma_the_game_data(sz, kz);
    assert forall|j: int|
        0 <= j < sc.len() implies (#[trigger] sm[j]).game_data == sc[j].game_data && (
        #[trigger] sa[j]).game_data == sc[j].game_data by {
        assert(sp[j] == after_player_system(sc[j], k1));
        assert(sf[j] == sp[j]);
        assert(sa[j] == after_asteroid_mover(sf[j]));
        assert(sm[j] == after_missile_mover(sa[j]));
    }
    lemma_game_data_same(sc, sm);
    lemma_game_data_same(sc, sa);
}

/// On a reload tick nothing is doomed and the fresh world survives whole:
/// one ship, the seed asteroid, the fired missile if any, and the session
/// state exactly as the reload wrote it.
#[verifier::rlimit(100)]
proof fn lemma_reload_tick(
    sc: Seq<Entity>,
    sp: Seq<Entity>,
    sf: Seq<Entity>,
    sa: Seq<Entity>,
    sm: Seq<Entity>,
    sb: Seq<Entity>,
    sz: Seq<Entity>,
    k1: InputState,
    firepos: Option<Position>,
    pushed: bool,
    hits: u32,
    dp: Seq<u64>,
    dm: Seq<u64>,
)
    requires
        sc.len() == 3,
        is_start_player_entity(sc[0], sc[0].id as int),
        is_asteroid_entity(sc[1], sc[1].id as int, spec_seed_position(), 64),
        sc[2].player is None && sc[2].asteroid is None && sc[2].missile is None,
        count_players(sc) == 1,
        count_asteroids(sc) == 1,
        count_missiles(sc) == 0,
        sp.len() == 3,
        forall|j: int| 0 <= j < sc.len() ==> #[trigger] sp[j] == after_player_system(sc[j], k1),
        (firepos is Some) == k1.fire,
        firepos matches Some(p) ==> exists|j: int|
            0 <= j < sc.len() && full_player(#[trigger] sc[j]) && p == player_stepped(
                sc[j],
                k1,
            ).position->Some_0,
        pushed == (k1.fire && count_missiles(sp) < MAX_MISSILES),
        pushed ==> sf.len() == sp.len() + 1 && sf == sp.push(sf.last()) && is_missile_entity(
            sf.last(),
            sf.last().id as int,
            firepos->Some_0,
        ),
        !pushed ==> sf == sp,
        sa.len() == sf.len(),
        forall|j: int| 0 <= j < sf.len() ==> #[trigger] sa[j] == after_asteroid_mover(sf[j]),
        sm.len() == sa.len(),
        forall|j: int| 0 <= j < sa.len() ==> #[trigger] sm[j] == after_missile_mover(sa[j]),
        dp.len() <= 1,
        (dp.len() == 1 <==> (!the_game_data(sa).god_mode && some_player_hit(sa))),
        (hits > 0 <==> exists|j: int| missile_strikes(sm, j)),
        dm.len() == 2 * hits,
        sb.len() == sm.len(),
        forall|j: int|
            0 <= j < sm.len() ==> #[trigger] sb[j] == score_bumped(sm[j], award_points(hits)),
        sz == remove_doomed(sb, dp + dm),
    ensures
        sz == sb,
        hits == 0,
        count_players(sb) == 1,
        count_asteroids(sb) == 1,
        count_missiles(sb) == if k1.fire {
            1nat
        } else {
            0nat
        },
{
    lemma_counts_pointwise(sc, sp);
    assert(pushed == k1.fire);
    if pushed {
        let j = choose|j: int|
            0 <= j < sc.len() && full_player(#[trigger] sc[j]) && firepos->Some_0
                == player_stepped(sc[j], k1).position->Some_0;
        assert(j == 0);
        lemma_still_player_step(sc[0], k1);
        assert(sf[3] == sf.last());
        assert(sf[3].position->Some_0.x == 650000 && sf[3].position->Some_0.y == 250000);
    }
    lemma_reload_no_hit(sc, sp, sf, sa, sm, k1);
    assert(dp.len() == 0);
    assert(hits == 0);
    assert(dm.len() == 0);
    assert((dp + dm).len() == 0);
    assert forall|j: int| 0 <= j < sb.len() implies !(dp + dm).contains(#[trigger] sb[j].id) by {
        if (dp + dm).contains(sb[j].id) {
            let idx = choose|idx: int| 0 <= idx < (dp + dm).len() && (dp + dm)[idx] == sb[j].id;
        }
    }
    lemma_remove_none(sb, dp + dm);
    lemma_skeleton(sf, sa, sm, sb, award_points(hits));
    lemma_counts_pointwise(sf, sb);
    assert(count_players(sf) == count_players(sp) && count_asteroids(sf) == count_asteroids(sp)
        && count_missiles(sf) == count_missiles(sp) + if pushed {
        1int
    } else {
        0int
    }) by {
        if pushed {
            lemma_count_push(sp, |e: Entity| has_player(e), sf.last());
            lemma_count_push(sp, |e: Entity| has_asteroid(e), sf.last());
            lemma_count_push(sp, |e: Entity| has_missile(e), sf.last());
        }
    }
}

/// Assembles the public tick relation for a tick that starts with a live
/// ship, from the per-phase facts the systems ensure.
#[verifier::rlimit(100)]
proof fn lemma_live_tick(
    s0: Seq<Entity>,
    sc: Seq<Entity>,
    sp: Seq<Entity>,
    sf: Seq<Entity>,
    sa: Seq<Entity>,
    sm: Seq<Entity>,
    sb: Seq<Entity>,
    sz: Seq<Entity>,
    k1: InputState,
    firepos: Option<Position>,
    pushed: bool,
    hits: u32,
    dp: Seq<u64>,
    dm: Seq<u64>,
)
    requires
        1 <= count_players(s0) <= 1,
        count_game_data(s0) == 1,
        forall|i: int| 0 <= i < s0.len() ==> wf_entity(#[trigger] s0[i]),
        sorted_ids(sb),
        forall|i: int| 0 <= i < sb.len() ==> wf_entity(#[trigger] sb[i]),
        sc.len() >= s0.len(),
        forall|j: int|
            0 <= j < s0.len() ==> #[trigger] sc[j] == controller_stepped(
                s0[j],
                k1,
                count_asteroids(s0) == 0,
            ),
        forall|j: int|
            s0.len() <= j < sc.len() ==> wave_asteroid_ok(#[trigger] sc[j], the_player_pos(s0)),
        count_missiles(sc) == count_missiles(s0),
        count_players(sc) == count_players(s0),
        count_game_data(sc) == 1,
        the_game_data(sc).score == the_game_data(s0).score,
        the_game_data(sc).god_mode == (the_game_data(s0).god_mode || k1.cheat),
        the_game_data(sc).level == sat_add_u32(
            sat_add_u32(
                the_game_data(s0).level,
                if k1.cheat {
                    9998
                } else {
                    0
                },
            ),
            if count_asteroids(s0) == 0 {
                1
            } else {
                0
            },
        ),
        count_asteroids(s0) == 0 ==> sc.len() == s0.len() + the_game_data(sc).level / 3 + 1,
        count_asteroids(s0) > 0 ==> sc.len() == s0.len(),
        sp.len() == sc.len(),
        forall|j: int| 0 <= j < sc.len() ==> #[trigger] sp[j] == after_player_system(sc[j], k1),
        (firepos is Some) == k1.fire,
        firepos matches Some(p) ==> exists|j: int|
            0 <= j < sc.len() && full_player(#[trigger] sc[j]) && p == player_stepped(
                sc[j],
                k1,
            ).position->Some_0,
        pushed == (k1.fire && count_missiles(sp) < MAX_MISSILES),
        pushed ==> sf.len() == sp.len() + 1 && sf == sp.push(sf.last()) && is_missile_entity(
            sf.last(),
            sf.last().id as int,
            firepos->Some_0,
        ),
        !pushed ==> sf == sp,
        sa.len() == sf.len(),
        forall|j: int| 0 <= j < sf.len() ==> #[trigger] sa[j] == after_asteroid_mover(sf[j]),
        sm.len() == sa.len(),
        forall|j: int| 0 <= j < sa.len() ==> #[trigger] sm[j] == after_missile_mover(sa[j]),
        dp.len() <= 1,
        (dp.len() == 1 <==> (!the_game_data(sa).god_mode && some_player_hit(sa))),
        dp.len() == 1 ==> exists|k: int|
            0 <= k < sa.len() && has_player(#[trigger] sa[k]) && dp[0] == sa[k].id,
        hits as int <= count_missiles(sm),
        hits <= MAX_MISSILES as u32,
        dm.len() == 2 * hits,
        (hits > 0 <==> exists|j: int| missile_strikes(sm, j)),
        forall|idx: int|
            0 <= idx < dm.len() ==> exists|k: int|
                0 <= k < sm.len() && (#[trigger] dm[idx]) == sm[k].id && (has_missile(sm[k])
                    || has_asteroid(sm[k])),
        forall|j: int|
            0 <= j < sm.len() && missile_strikes(sm, j) ==> dm.contains((#[trigger] sm[j]).id)
                && exists|i: int| missile_hits_asteroid(sm, j, i) && dm.contains(sm[i].id),
        sb.len() == sm.len(),
        forall|j: int|
            0 <= j < sm.len() ==> #[trigger] sb[j] == score_bumped(sm[j], award_points(hits)),
        the_game_data(sb).score == sat_add_u32(the_game_data(sm).score, award_points(hits)),
        the_game_data(sm) == the_game_data(sc),
        the_game_data(sa) == the_game_data(sc),
        sz == remove_doomed(sb, dp + dm),
        the_game_data(sz) == the_game_data(sb),
    ensures
        tick_commit_rel(s0, k1, sz, sa, hits, dp, dm),
        the_game_data(sz).score == sat_add_u32(the_game_data(s0).score, award_points(hits)),
{
    let n0 = s0.len() as int;
    let empty = count_asteroids(s0) == 0;
    assert(sa.map_values(|e: Entity| after_missile_mover(e)) =~= sm);
    assert(sm.map_values(|e: Entity| score_bumped(e, award_points(hits))) =~= sb);
    lemma_skeleton(sf, sa, sm, sb, award_points(hits));
    lemma_counts_pointwise(sc, sp);
    assert(count_missiles(sf) == count_missiles(sp) + if pushed {
        1int
    } else {
        0int
    } && count_players(sf) == count_players(sp)) by {
        if pushed {
            lemma_count_push(sp, |e: Entity| has_missile(e), sf.last());
            lemma_count_push(sp, |e: Entity| has_player(e), sf.last());
        }
    }
    lemma_counts_pointwise(sf, sm);
    lemma_counts_pointwise(sf, sb);
    assert(pushed == (k1.fire && count_missiles(s0) < MAX_MISSILES));
    // Entry slots pass through the named phase steps.
    assert forall|j: int| 0 <= j < n0 implies #[trigger] sa[j] == after_asteroid_mover(
        after_player_system(controller_stepped(s0[j], k1, empty), k1),
    ) by {
        assert(sp[j] == after_player_system(sc[j], k1));
        assert(sf[j] == sp[j]);
    }
    // Wave slots pass untouched through ship control.
    assert forall|j: int|
        n0 <= j < sa.len() - if pushed {
            1int
        } else {
            0int
        } implies exists|a: Entity|
        wave_asteroid_ok(a, the_player_pos(s0)) && #[trigger] sa[j] == after_asteroid_mover(
            a,
        ) by {
        assert(wave_asteroid_ok(sc[j], the_player_pos(s0)));
        assert(sp[j] == after_player_system(sc[j], k1));
        assert(!full_player(sc[j]));
        assert(sf[j] == sp[j]);
        assert(sa[j] == after_asteroid_mover(sc[j]));
    }
    // The fired missile sits last, at the ship's stepped position.
    if pushed {
        let j = choose|j: int|
            0 <= j < sc.len() && full_player(#[trigger] sc[j]) && firepos->Some_0
                == player_stepped(sc[j], k1).position->Some_0;
        assert(sc[j] == controller_stepped(s0[j], k1, empty));
        assert(has_player(s0[j]));
        lemma_the_player(s0, j);
        assert(sc[j] == s0[j]);
        assert(sa[sa.len() - 1] == sf.last());
        assert(is_missile_entity(
            sa.last(),
            sa.last().id as int,
            player_stepped(s0[player_index(s0)], k1).position->Some_0,
        ));
    }
    // A tick without a ship hit keeps the ship.
    let god = the_game_data(s0).god_mode || k1.cheat;
    if god || !some_player_hit(sa) {
        assert(dp.len() == 0);
        lemma_doomed_safe(sa, sm, sb, dp, dm, dp + dm);
        lemma_remove_count_keep(sb, dp + dm, |e: Entity| has_player(e));
    }
}

#[verifier::rlimit(100)]
pub fn update(ecs: &mut World, key_manager: &mut InputState)
    requires
        old(ecs).wf(),
        old(ecs).next_id < MAX_ID,
    ensures
        final(ecs).wf(),
        count_game_data(final(ecs).entities@) == 1,
        count_players(final(ecs).entities@) <= 1,
        count_missiles(final(ecs).entities@) <= MAX_MISSILES,
        final(ecs).next_id >= old(ecs).next_id,
        count_players(old(ecs).entities@) >= 1 ==> {
            &&& the_game_data(final(ecs).entities@).score >= the_game_data(
                old(ecs).entities@,
            ).score
            &&& the_game_data(final(ecs).entities@).level >= the_game_data(
                old(ecs).entities@,
            ).level
            &&& the_game_data(final(ecs).entities@).level == sat_add_u32(
                sat_add_u32(
                    the_game_data(old(ecs).entities@).level,
                    if old(key_manager).cheat {
                        9998
                    } else {
                        0
                    },
                ),
                if count_asteroids(old(ecs).entities@) == 0 {
                    1
                } else {
                    0
                },
            )
            &&& the_game_data(final(ecs).entities@).god_mode == (the_game_data(
                old(ecs).entities@,
            ).god_mode || old(key_manager).cheat)
            &&& exists|sa: Seq<Entity>, hits: u32, dp: Seq<u64>, dm: Seq<u64>|
                tick_commit_rel(
                    old(ecs).entities@,
                    *old(key_manager),
                    final(ecs).entities@,
                    sa,
                    hits,
                    dp,
                    dm,
                )
        },
        count_players(old(ecs).entities@) == 0 ==> {
            &&& count_players(final(ecs).entities@) == 1
            &&& count_asteroids(final(ecs).entities@) == 1
            &&& count_missiles(final(ecs).entities@) == if old(key_manager).fire {
                1nat
            } else {
                0nat
            }
            &&& the_game_data(final(ecs).entities@).score == 0
            &&& the_game_data(final(ecs).entities@).level == (if old(key_manager).cheat {
                9999u32
            } else {
                1u32
            })
            &&& the_game_data(final(ecs).entities@).god_mode == old(key_manager).cheat
        },
        final(key_manager).left == old(key_manager).left,
        final(key_manager).right == old(key_manager).right,
        final(key_manager).thrust == old(key_manager).thrust,
        final(key_manager).cheat == old(key_manager).cheat,
        final(key_manager).fire == false,
{
    let ghost s0 = old(ecs).entities@;
    let ghost cp0 = count_players(s0);
    let ghost empty0 = count_asteroids(s0) == 0;
    run_controller(ecs, key_manager);
    let ghost sc = ecs.entities@;
    let ghost k1 = *key_manager;
    proof {
        // A ship always exists after the controller, so a held fire key is
        // consumed this tick.
        if cp0 == 0 {
            assert(full_player(sc[0]));
        } else {
            if forall|k: int| 0 <= k < s0.len() ==> !has_player(#[trigger] s0[k]) {
                lemma_count_zero(s0, |e: Entity| has_player(e));
            }
            let k = choose|k: int| 0 <= k < s0.len() && has_player(#[trigger] s0[k]);
            assert(wf_entity(s0[k]));
            assert(sc[k] == controller_stepped(s0[k], k1, count_asteroids(s0) == 0));
            assert(full_player(sc[k]));
        }
    }
    let fire = player_system(ecs, key_manager);
    let ghost sp = ecs.entities@;
    let ghost fired = fire is Some;
    proof {
        assert(fired == k1.fire);
    }
    match fire {
        Some(p) => {
            key_manager.key_up(Key::Fire);
            proof {
                let j = choose|j: int|
                    0 <= j < sc.len() && full_player(#[trigger] sc[j]) && p == player_stepped(
                        sc[j],
                        k1,
                    ).position->Some_0;
                assert(sp[j] == player_stepped(sc[j], k1));
                assert(wf_entity(sp[j]));
            }
            fire_missile(ecs, p);
        },
        None => {},
    }
    let ghost sf = ecs.entities@;
    let ghost pushed = sf.len() == sp.len() + 1;
    move_asteroids(ecs);
    let ghost sa = ecs.entities@;
    let doomed_players = asteroid_collider(ecs);
    move_missiles(ecs);
    let ghost sm = ecs.entities@;
    let (mut doomed_m, hits) = missile_striker(ecs);
    let points = hits * SCORE_AWARD;
    add_score(ecs, points);
    let ghost sb = ecs.entities@;
    let mut doomed = doomed_players;
    let ghost dp = doomed@;
    let ghost dm = doomed_m@;
    doomed.append(&mut doomed_m);
    let ghost dseq = doomed@;
    ecs.commit_destroy(&doomed);
    proof {
        let sz = ecs.entities@;
        let pts = award_points(hits);
        assert(pts == points);
        assert(pushed == (fired && count_missiles(sp) < MAX_MISSILES));
        lemma_commit_shared(sc, sp, sf, sa, sm, sb, sz, k1, pushed, points, dp, dm, ecs.next_id);
        if cp0 >= 1 {
            lemma_live_tick(s0, sc, sp, sf, sa, sm, sb, sz, k1, fire, pushed, hits, dp, dm);
        }
        if cp0 == 0 {
            lemma_reload_tick(sc, sp, sf, sa, sm, sb, sz, k1, fire, pushed, hits, dp, dm);
            lemma_the_game_data(sc, 2);
            assert(the_game_data(sz).score == sat_add_u32(0, award_points(0)));
        }
    }
}

} // verus!
