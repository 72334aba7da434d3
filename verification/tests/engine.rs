//! Arena, state and round-machine behaviour, exercised end to end.

use arcade_core::arena::Handle;
use arcade_core::infos::{ActorInfo, ImageIndex, Infos, WeaponInfo};
use arcade_core::state::{Actor, GameState, State, Timer};
use arcade_core::systems;
use arcade_core::vec2::Vec2;

fn frames_none() -> Vec<ImageIndex> {
    Vec::new()
}

fn test_catalog() -> Infos {
    let fists = WeaponInfo {
        name: "fists".to_string(),
        rate_of_fire: 2000,
        frames: frames_none(),
        damage: (0, 0),
        mount_offset: 0,
        muzzle_offset: 100,
        spread: 0,
        range: 1500,
        projectile: None,
    };
    let pistol = WeaponInfo {
        name: "pistol".to_string(),
        rate_of_fire: 2000,
        frames: frames_none(),
        damage: (5000, 5000),
        mount_offset: 0,
        muzzle_offset: 200,
        spread: 0,
        range: 8000,
        projectile: Some(2),
    };
    let guy = ActorInfo {
        name: "guy".to_string(),
        frames: frames_none(),
        locomotion_frames: frames_none(),
        dead_frames: frames_none(),
        bot: false,
        speed: 5000,
        radius: 500,
        missile: false,
        shootable: true,
        health: 100_000,
        solid: true,
        particle: false,
        weapon: 1,
        offset: Vec2 { x: 0, y: 0 },
        rotate_to_face: false,
        missile_direct_damage: (0, 0),
        missile_splash_damage: (0, 0),
        max_age: 0,
        velocity: 0,
    };
    let zombie = ActorInfo {
        name: "zombie".to_string(),
        frames: frames_none(),
        locomotion_frames: frames_none(),
        dead_frames: frames_none(),
        bot: true,
        speed: 2000,
        radius: 500,
        missile: false,
        shootable: true,
        health: 50_000,
        solid: true,
        particle: false,
        weapon: 0,
        offset: Vec2 { x: 0, y: 0 },
        rotate_to_face: false,
        missile_direct_damage: (0, 0),
        missile_splash_damage: (0, 0),
        max_age: 0,
        velocity: 0,
    };
    let bullet = ActorInfo {
        name: "bullet".to_string(),
        frames: frames_none(),
        locomotion_frames: frames_none(),
        dead_frames: frames_none(),
        bot: false,
        speed: 0,
        radius: 100,
        missile: true,
        shootable: false,
        health: 1000,
        solid: false,
        particle: false,
        weapon: 0,
        offset: Vec2 { x: 0, y: 0 },
        rotate_to_face: true,
        missile_direct_damage: (10_000, 10_000),
        missile_splash_damage: (0, 0),
        max_age: 2000,
        velocity: 20_000,
    };
    let spatter = ActorInfo {
        name: "spatter".to_string(),
        frames: frames_none(),
        locomotion_frames: frames_none(),
        dead_frames: frames_none(),
        bot: false,
        speed: 0,
        radius: 100,
        missile: false,
        shootable: false,
        health: 1000,
        solid: false,
        particle: true,
        weapon: 0,
        offset: Vec2 { x: 0, y: 0 },
        rotate_to_face: false,
        missile_direct_damage: (0, 0),
        missile_splash_damage: (0, 0),
        max_age: 0,
        velocity: 0,
    };
    Infos {
        images: Vec::new(),
        weapons: vec![fists, pistol],
        actors: vec![guy, zombie, bullet, spatter],
    }
}

#[test]
fn catalog_checks_clean() {
    let infos = test_catalog();
    assert!(infos.check());
}

#[test]
fn catalog_rejects_dangling_weapon() {
    let mut infos = test_catalog();
    infos.actors[0].weapon = 99;
    assert!(!infos.check());
}

#[test]
fn catalog_rejects_duplicate_names() {
    let mut infos = test_catalog();
    infos.actors[1].name = "guy".to_string();
    assert!(!infos.check());
}

#[test]
fn find_actor_resolves_names() {
    let infos = test_catalog();
    assert_eq!(infos.find_actor("guy"), Some(0));
    assert_eq!(infos.find_actor("zombie"), Some(1));
    assert_eq!(infos.find_actor("nobody"), None);
    assert_eq!(infos.find_weapon("pistol"), Some(1));
    assert_eq!(infos.find_weapon("sword"), None);
}

#[test]
fn handle_lifecycle() {
    let infos = test_catalog();
    assert!(infos.check());
    let mut state = State::default();
    let h = state.spawn_actor(&infos, 0);
    assert!(state.actor(h).is_some());
    assert_eq!(state.actor(h).unwrap().state.health, 100_000);
    state.despawn_actor(h);
    assert!(state.actor(h).is_none());
    let h2 = state.spawn_actor(&infos, 1);
    // the freed slot is reused, yet the old handle keeps failing
    assert_eq!(h2.index, h.index);
    assert!(state.actor(h).is_none());
    assert!(state.actor(h2).is_some());
}

#[test]
fn actor_handles_lists_live_actors() {
    let infos = test_catalog();
    let mut state = State::default();
    let h0 = state.spawn_actor(&infos, 0);
    let h1 = state.spawn_actor(&infos, 1);
    let h2 = state.spawn_actor(&infos, 1);
    state.despawn_actor(h1);
    let ks = state.actor_handles();
    assert_eq!(ks.len(), 2);
    assert_eq!(ks[0], h0);
    assert_eq!(ks[1], h2);
}

#[test]
fn mobs_left_counts_living_bots() {
    let infos = test_catalog();
    let mut state = State::default();
    let _guy = state.spawn_actor(&infos, 0);
    let z1 = state.spawn_actor(&infos, 1);
    let _z2 = state.spawn_actor(&infos, 1);
    assert_eq!(state.mobs_left(&infos), 2);
    // a dead bot no longer counts
    let mut dead = *state.actor(z1).unwrap();
    dead.state.health = 0;
    state.set_actor(z1, dead);
    assert_eq!(state.mobs_left(&infos), 1);
}

#[test]
fn countdown_spawns_squared_wave() {
    let infos = test_catalog();
    let mut state = State::default();
    state.round = 2;
    state.game_state = GameState::Countdown {
        timer: Timer {
            timer: 4990,
            end_time: 5000,
        },
    };
    arcade_core::rounds::game_state(&mut state, &infos, 16);
    // round 2 finished its countdown: round becomes 3, wave is (2 + 2) squared
    assert_eq!(state.round, 3);
    match state.game_state {
        GameState::Spawning {
            mobs_left_to_spawn,
            mobs_total,
        } => {
            assert_eq!(mobs_left_to_spawn, 16);
            assert_eq!(mobs_total, 16);
        }
        _ => panic!("expected a spawning phase"),
    }
}

#[test]
fn spawning_inserts_one_mob_per_tick() {
    let infos = test_catalog();
    let mut state = State::default();
    state.game_state = GameState::Spawning {
        mobs_left_to_spawn: 2,
        mobs_total: 2,
    };
    arcade_core::rounds::game_state(&mut state, &infos, 16);
    assert_eq!(state.actor_handles().len(), 1);
    arcade_core::rounds::game_state(&mut state, &infos, 16);
    assert_eq!(state.actor_handles().len(), 2);
    arcade_core::rounds::game_state(&mut state, &infos, 16);
    assert_eq!(state.actor_handles().len(), 2);
    assert!(matches!(state.game_state, GameState::WaitForDefeat));
    for h in state.actor_handles() {
        let a = state.actor(h).unwrap();
        assert_eq!(a.info, 1);
        assert_eq!(a.state.health, 50_000);
    }
}

#[test]
fn defeat_waits_then_restarts_round() {
    let infos = test_catalog();
    let mut state = State::default();
    state.game_state = GameState::WaitForDefeat;
    // no bots alive, no player tracked: a new countdown begins
    arcade_core::rounds::game_state(&mut state, &infos, 16);
    assert!(matches!(state.game_state, GameState::Countdown { .. }));
}

#[test]
fn dead_player_triggers_respawn_wait() {
    let infos = test_catalog();
    let mut state = State::default();
    let hg = state.spawn_actor(&infos, 0);
    state.me = hg;
    let mut dead = *state.actor(hg).unwrap();
    dead.state.health = 0;
    state.set_actor(hg, dead);
    state.game_state = GameState::WaitForDefeat;
    arcade_core::rounds::game_state(&mut state, &infos, 16);
    assert!(matches!(state.game_state, GameState::WaitForRespawn { .. }));
    arcade_core::rounds::game_state(&mut state, &infos, 1000);
    assert!(matches!(state.game_state, GameState::ReadyToRespawn));
}

#[test]
fn start_spawns_the_player() {
    let infos = test_catalog();
    let mut state = State::default();
    systems::start(&mut state, &infos);
    let p = state.actor(state.me).expect("player must be live");
    assert_eq!(p.info, 0);
    assert_eq!(p.state.health, 100_000);
    assert_eq!(state.actor_handles().len(), 1);
    assert_eq!(state.round, 0);
}

#[test]
fn still_actors_stay_put() {
    // spawn "guy" and "zombie" one unit apart, both at rest and with no
    // steering input; one movement pass produces no contact events and
    // leaves the positions unchanged
    let infos = test_catalog();
    let mut state = State::default();
    systems::start(&mut state, &infos);
    let hz = state.spawn_actor(&infos, 1);
    let mut z = *state.actor(hz).unwrap();
    z.state.pos = Vec2 { x: 1000, y: 0 };
    state.set_actor(hz, z);
    arcade_core::motion::locomotion(&mut state, &infos, 16);
    arcade_core::motion::physics(&mut state, &infos, 16);
    assert_eq!(state.contact_events.len(), 0);
    assert_eq!(state.actor(state.me).unwrap().state.pos, Vec2 { x: 0, y: 0 });
    assert_eq!(state.actor(hz).unwrap().state.pos, Vec2 { x: 1000, y: 0 });
}

#[test]
fn bots_steer_toward_the_player() {
    let infos = test_catalog();
    let mut state = State::default();
    systems::start(&mut state, &infos);
    let hz = state.spawn_actor(&infos, 1);
    let mut z = *state.actor(hz).unwrap();
    z.state.pos = Vec2 { x: 1000, y: 0 };
    state.set_actor(hz, z);
    systems::bots(&mut state, &infos);
    let z2 = state.actor(hz).unwrap();
    // the player sits to the zombie's left, within the fists' range
    assert_eq!(z2.state.locomotion_dir, Vec2 { x: -1000, y: 0 });
    assert_eq!(z2.state.attack_dir, Vec2 { x: -1000, y: 0 });
    assert_eq!(z2.state.facing, Vec2 { x: -1000, y: 0 });
    // the player is not a bot and keeps its own steering
    let p = state.actor(state.me).unwrap();
    assert_eq!(p.state.locomotion_dir, Vec2 { x: 0, y: 0 });
}

#[test]
fn null_handle_never_resolves() {
    let infos = test_catalog();
    let mut state = State::default();
    let _ = state.spawn_actor(&infos, 0);
    assert!(state.actor(Handle::null()).is_none());
}

#[test]
fn set_actor_rejects_stale_handles() {
    let infos = test_catalog();
    let mut state = State::default();
    let h = state.spawn_actor(&infos, 0);
    let a: Actor = *state.actor(h).unwrap();
    state.despawn_actor(h);
    assert!(!state.set_actor(h, a));
}

#[test]
fn player_is_held_inside_the_bounds() {
    let infos = test_catalog();
    let mut state = State::default();
    systems::start(&mut state, &infos);
    let me = state.me;
    let mut p = *state.actor(me).unwrap();
    p.state.pos = Vec2 {
        x: 50_000,
        y: -50_000,
    };
    state.set_actor(me, p);
    arcade_core::motion::player_bounds(&mut state, &infos);
    // the default bounds form a square from -16 to 16 units
    assert_eq!(
        state.actor(me).unwrap().state.pos,
        Vec2 {
            x: 16_000,
            y: -16_000
        }
    );
}

#[test]
fn clock_wraps_past_its_reset() {
    let mut c = arcade_core::state::Clock { tick: 0 };
    assert!(!c.tick(600, 1000));
    assert_eq!(c.tick, 600);
    assert!(c.tick(600, 1000));
    assert_eq!(c.tick, 0);
}

#[test]
fn many_ticks_run_clean() {
    // a short stretch of real frames: countdown runs, the player holds an
    // attack, waves eventually spawn, and every pass keeps the world sound
    let infos = test_catalog();
    let mut state = State::default();
    systems::once(&mut state, &infos);
    let me = state.me;
    let mut p = *state.actor(me).unwrap();
    p.state.attack_dir = Vec2 { x: 1000, y: 0 };
    state.set_actor(me, p);
    for _ in 0..400 {
        systems::tick(&mut state, &infos, 16);
    }
    // the five-second countdown has finished and the first wave arrived
    assert_eq!(state.round, 1);
    assert!(state.mobs_left(&infos) > 0);
    assert!(state.actor(me).is_some());
}
