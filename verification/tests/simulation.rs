//! Scenario tests for the tick pipeline: progression, firing, collisions
//! and the reload path.

use asteroids_core::components::{Asteroid, GameData, Missile, Player, Position, Renderable, Vec2};
use asteroids_core::game::{create_asteroid, fire_missile, load_world, update, update_movement};
use asteroids_core::input::{InputState, Key};
use asteroids_core::world::World;
use asteroids_core::{GAME_HEIGHT, GAME_WIDTH, MAX_MISSILES, SCORE_AWARD};

fn fresh_world() -> World {
    let mut w = World::new();
    load_world(&mut w);
    w
}

fn player_position(w: &World) -> Position {
    for e in &w.entities {
        if e.player.is_some() {
            return e.position.unwrap();
        }
    }
    panic!("no player entity");
}

fn game_data(w: &World) -> GameData {
    for e in &w.entities {
        if let Some(gd) = e.game_data {
            return gd;
        }
    }
    panic!("no game data entity");
}

fn count_players(w: &World) -> usize {
    w.entities.iter().filter(|e| e.player.is_some()).count()
}

fn count_asteroids(w: &World) -> usize {
    w.entities.iter().filter(|e| e.asteroid.is_some()).count()
}

fn count_missiles(w: &World) -> usize {
    w.entities.iter().filter(|e| e.missile.is_some()).count()
}

#[test]
fn initial_world_contents() {
    let w = fresh_world();
    assert_eq!(w.entities.len(), 3);
    assert_eq!(count_players(&w), 1);
    assert_eq!(count_asteroids(&w), 1);
    assert_eq!(count_missiles(&w), 0);
    let p = player_position(&w);
    assert_eq!((p.x, p.y, p.rot), (650000, 250000, 0));
    let gd = game_data(&w);
    assert_eq!(gd.score, 0);
    assert_eq!(gd.level, 1);
    assert!(!gd.god_mode);
}

#[test]
fn wave_spawned_when_no_asteroids() {
    // Progression: 0 asteroids and the player at (650, 250) advance the
    // level to 2 and spawn 2/3 + 1 = 1 asteroid at least 150 px away.
    let mut w = World::new();
    w.create_entity(
        Some(Position { x: 650000, y: 250000, rot: 0 }),
        Some(ship_renderable()),
        Some(Player { impulse: Vec2 { x: 0, y: 0 }, cur_speed: Vec2 { x: 0, y: 0 } }),
        None,
        None,
        None,
    );
    w.create_entity(None, None, None, None, None, Some(GameData { score: 0, level: 1, god_mode: false }));
    let mut keys = InputState::new();
    update(&mut w, &mut keys);
    let gd = game_data(&w);
    assert_eq!(gd.level, 2);
    assert_eq!(count_asteroids(&w), 1);
    for e in &w.entities {
        if e.asteroid.is_some() {
            let r = e.renderable.as_ref().unwrap();
            assert_eq!(r.o_w, 128);
        }
    }
}

#[test]
fn spawned_asteroid_far_from_player() {
    // The wave asteroid is sampled before movement runs, so its distance
    // from the spawn-time player position is at least 150 px minus the two
    // bodies' single-tick travel.
    for _ in 0..20 {
        let mut w = World::new();
        w.create_entity(
            Some(Position { x: 650000, y: 250000, rot: 0 }),
            Some(ship_renderable()),
            Some(Player { impulse: Vec2 { x: 0, y: 0 }, cur_speed: Vec2 { x: 0, y: 0 } }),
            None,
            None,
            None,
        );
        w.create_entity(
            None,
            None,
            None,
            None,
            None,
            Some(GameData { score: 0, level: 1, god_mode: false }),
        );
        let mut keys = InputState::new();
        update(&mut w, &mut keys);
        let p = player_position(&w);
        assert_eq!((p.x, p.y), (650000, 250000));
        for e in &w.entities {
            if e.asteroid.is_some() {
                let a = e.position.unwrap();
                let dx = (a.x - p.x) as f64 / 1000.0;
                let dy = (a.y - p.y) as f64 / 1000.0;
                let dist = (dx * dx + dy * dy).sqrt();
                assert!(dist >= 150.0 - 2.5, "asteroid spawned at distance {dist}");
                assert!(a.x >= 47500 && a.x < GAME_WIDTH - 47500);
                assert!(a.y >= 47500 && a.y < GAME_HEIGHT - 47500);
            }
        }
    }
}

#[test]
fn impulse_clamped_to_max_speed() {
    // A speed impulse of magnitude 10 with zero prior speed is clamped to
    // magnitude 3.5 by integration.
    let mut pos = Position { x: 650000, y: 250000, rot: 0 };
    let mut pl = Player {
        impulse: Vec2 { x: 10000, y: 0 },
        cur_speed: Vec2 { x: 0, y: 0 },
    };
    update_movement(&mut pos, &mut pl);
    assert_eq!(pl.cur_speed, Vec2 { x: 3500, y: 0 });
    assert_eq!(pl.impulse, Vec2 { x: 0, y: 0 });
    assert_eq!(pos.x, 653500);
    assert_eq!(pos.y, 250000);
}

#[test]
fn friction_without_impulse() {
    // 2.0 px/tick decays by the 99/100 friction factor.
    let mut pos = Position { x: 100000, y: 100000, rot: 0 };
    let mut pl = Player {
        impulse: Vec2 { x: 0, y: 0 },
        cur_speed: Vec2 { x: 2000, y: -2000 },
    };
    update_movement(&mut pos, &mut pl);
    assert_eq!(pl.cur_speed, Vec2 { x: 1980, y: -1980 });
    assert_eq!(pos.x, 101980);
    assert_eq!(pos.y, 101980);
}

#[test]
fn missile_strike_destroys_both_and_scores_once() {
    // A missile and an asteroid that coincide within the hit radius on the
    // same tick are both destroyed and the score rises by the award once.
    let mut w = World::new();
    w.create_entity(
        Some(Position { x: 100000, y: 100000, rot: 0 }),
        Some(ship_renderable()),
        Some(Player { impulse: Vec2 { x: 0, y: 0 }, cur_speed: Vec2 { x: 0, y: 0 } }),
        None,
        None,
        None,
    );
    create_asteroid(&mut w, Position { x: 650000, y: 250000, rot: 0 }, 128);
    w.create_entity(
        Some(Position { x: 650000, y: 250000, rot: 0 }),
        Some(bullet_renderable()),
        None,
        None,
        Some(Missile { speed: 5000 }),
        None,
    );
    w.create_entity(None, None, None, None, None, Some(GameData { score: 0, level: 5, god_mode: false }));
    let mut keys = InputState::new();
    update(&mut w, &mut keys);
    assert_eq!(count_asteroids(&w), 0);
    assert_eq!(count_missiles(&w), 0);
    assert_eq!(count_players(&w), 1);
    let gd = game_data(&w);
    assert_eq!(gd.score, SCORE_AWARD);
    assert_eq!(gd.level, 5);
}

#[test]
fn lost_player_reloads_fresh_world() {
    // Destroying the sole player entity makes the next tick produce a world
    // with one player, one seed asteroid drawn at 64 px, and fresh session
    // state with score 0 and level 1.
    let mut w = World::new();
    create_asteroid(&mut w, Position { x: 400000, y: 235000, rot: 45000 }, 64);
    w.create_entity(None, None, None, None, None, Some(GameData { score: 770, level: 9, god_mode: false }));
    let mut keys = InputState::new();
    update(&mut w, &mut keys);
    assert_eq!(count_players(&w), 1);
    assert_eq!(count_asteroids(&w), 1);
    let p = player_position(&w);
    assert_eq!((p.x, p.y, p.rot), (650000, 250000, 0));
    for e in &w.entities {
        if e.asteroid.is_some() {
            let r = e.renderable.as_ref().unwrap();
            assert_eq!(r.o_w, 64);
        }
    }
    let gd = game_data(&w);
    assert_eq!(gd.score, 0);
    assert_eq!(gd.level, 1);
    assert!(!gd.god_mode);
}

#[test]
fn missile_cap_drops_sixth_request() {
    let mut w = fresh_world();
    let origin = Position { x: 650000, y: 250000, rot: 0 };
    for _ in 0..7 {
        fire_missile(&mut w, origin);
    }
    assert_eq!(count_missiles(&w), MAX_MISSILES);
}

#[test]
fn score_and_level_never_decrease_over_ticks() {
    let mut w = fresh_world();
    let mut keys = InputState::new();
    keys.key_down(Key::Thrust);
    keys.key_down(Key::Right);
    let mut last_score = 0u32;
    let mut last_level = 1u32;
    for tick in 0..300 {
        if tick % 7 == 0 {
            keys.key_down(Key::Fire);
        }
        let players_before = count_players(&w);
        update(&mut w, &mut keys);
        let gd = game_data(&w);
        if players_before >= 1 {
            // A tick that starts with no ship reloads the world and resets
            // the session state, so monotonicity is claimed only for ticks
            // that start with a live ship.
            assert!(gd.score >= last_score);
            assert!(gd.level >= last_level);
        }
        assert!(count_missiles(&w) <= MAX_MISSILES);
        last_score = gd.score;
        last_level = gd.level;
        for e in &w.entities {
            if let Some(p) = e.position {
                assert!(p.x >= 0 && p.x < GAME_WIDTH);
                assert!(p.y >= 0 && p.y < GAME_HEIGHT);
                assert!(p.rot >= 0 && p.rot < 360000);
            }
        }
    }
}

#[test]
fn cheat_key_inflates_level_and_sets_god_mode() {
    let mut w = fresh_world();
    let mut keys = InputState::new();
    keys.key_down(Key::Cheat);
    update(&mut w, &mut keys);
    let gd = game_data(&w);
    assert_eq!(gd.level, 9999);
    assert!(gd.god_mode);
    assert_eq!(gd.score, 0);
}

fn ship_renderable() -> Renderable {
    Renderable {
        tex_name: String::from("img/ship.png"),
        i_w: 256,
        i_h: 256,
        o_w: 64,
        o_h: 64,
        frame: 0,
        total_frames: 1,
        rot: 0,
    }
}

fn bullet_renderable() -> Renderable {
    Renderable {
        tex_name: String::from("img/bullet.png"),
        i_w: 8,
        i_h: 32,
        o_w: 8,
        o_h: 32,
        frame: 0,
        total_frames: 1,
        rot: 0,
    }
}
