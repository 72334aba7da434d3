//! Save and restore: snapshot round trips at the record level and through
//! the byte format.

use arcade_core::codec::{decode_snapshot, encode_snapshot};
use arcade_core::infos::{ActorInfo, ImageIndex, Infos, WeaponInfo};
use arcade_core::snapshot::StateSnapshot;
use arcade_core::state::{GameState, State, Timer};
use arcade_core::vec2::Vec2;

fn empty_frames() -> Vec<ImageIndex> {
    Vec::new()
}

fn snapshot_catalog() -> Infos {
    let fists = WeaponInfo {
        name: "fists".to_string(),
        rate_of_fire: 2000,
        frames: empty_frames(),
        damage: (0, 0),
        mount_offset: 0,
        muzzle_offset: 100,
        spread: 0,
        range: 1500,
        projectile: None,
    };
    let guy = ActorInfo {
        name: "guy".to_string(),
        frames: empty_frames(),
        locomotion_frames: empty_frames(),
        dead_frames: empty_frames(),
        bot: false,
        speed: 5000,
        radius: 500,
        missile: false,
        shootable: true,
        health: 100_000,
        solid: true,
        particle: false,
        weapon: 0,
        offset: Vec2 { x: 0, y: 0 },
        rotate_to_face: false,
        missile_direct_damage: (0, 0),
        missile_splash_damage: (0, 0),
        max_age: 0,
        velocity: 0,
    };
    let zombie = ActorInfo {
        name: "zombie".to_string(),
        frames: empty_frames(),
        locomotion_frames: empty_frames(),
        dead_frames: empty_frames(),
        bot: true,
        speed: 2000,
        radius: 500,
        missile: false,
        shootable: true,
        health: 50_000,
        solid: true,
        particle: false,
        weapon: 0,
        offset: Vec2 { x: 0, y: 0 },
        rotate_to_face: false,
        missile_direct_damage: (0, 0),
        missile_splash_damage: (0, 0),
        max_age: 0,
        velocity: 0,
    };
    Infos {
        images: Vec::new(),
        weapons: vec![fists],
        actors: vec![guy, zombie],
    }
}

fn assert_restored(s: &State, s2: &State, infos: &Infos) {
    assert_eq!(s2.round, s.round);
    assert_eq!(s2.game_state, s.game_state);
    assert_eq!(s2.spawner, s.spawner);
    assert_eq!(s2.contact_events.len(), 0);
    let ks = s.actor_handles();
    let ks2 = s2.actor_handles();
    assert_eq!(ks.len(), ks2.len());
    for i in 0..ks.len() {
        let a = s.actor(ks[i]).unwrap();
        let b = s2.actor(ks2[i]).unwrap();
        assert_eq!(a.state, b.state);
        assert_eq!(infos.actors[a.info].name, infos.actors[b.info].name);
        assert_eq!(infos.weapons[a.weapon].name, infos.weapons[b.weapon].name);
    }
}

#[test]
fn snapshot_round_trip_empty_world() {
    let infos = snapshot_catalog();
    assert!(infos.check());
    let state = State::default();
    let snap = StateSnapshot::create_snapshot(&state, &infos);
    let s2 = snap.load_snapshot(&infos).expect("restore must succeed");
    assert_restored(&state, &s2, &infos);
}

#[test]
fn snapshot_round_trip_single_actor() {
    let infos = snapshot_catalog();
    let mut state = State::default();
    let hg = state.spawn_actor(&infos, 0);
    state.me = hg;
    let mut g = *state.actor(hg).unwrap();
    g.state.pos = Vec2 { x: 1234, y: -777 };
    g.state.health = 43_210;
    g.state.facing = Vec2 { x: 0, y: 1000 };
    state.set_actor(hg, g);
    state.round = 7;
    let snap = StateSnapshot::create_snapshot(&state, &infos);
    let s2 = snap.load_snapshot(&infos).expect("restore must succeed");
    assert_restored(&state, &s2, &infos);
    // the player resolves to the same actor state under its fresh handle
    let p = s2.actor(s2.me).expect("restored player must resolve");
    assert_eq!(p.state, g.state);
}

#[test]
fn snapshot_round_trip_many_actors() {
    let infos = snapshot_catalog();
    let mut state = State::default();
    let hg = state.spawn_actor(&infos, 0);
    state.me = hg;
    for i in 0..5i64 {
        let hz = state.spawn_actor(&infos, 1);
        let mut z = *state.actor(hz).unwrap();
        z.state.pos = Vec2 {
            x: 1000 * i,
            y: -500 * i,
        };
        z.state.health = 50_000 - 1000 * i;
        state.set_actor(hz, z);
    }
    state.round = 3;
    state.game_state = GameState::Spawning {
        mobs_left_to_spawn: 11,
        mobs_total: 16,
    };
    let snap = StateSnapshot::create_snapshot(&state, &infos);
    let s2 = snap.load_snapshot(&infos).expect("restore must succeed");
    assert_restored(&state, &s2, &infos);
}

#[test]
fn restore_preserves_the_player_after_holes() {
    // despawn an earlier actor so the player's list position is not its
    // slot index, then round trip
    let infos = snapshot_catalog();
    let mut state = State::default();
    let hz = state.spawn_actor(&infos, 1);
    let hg = state.spawn_actor(&infos, 0);
    state.me = hg;
    state.despawn_actor(hz);
    let snap = StateSnapshot::create_snapshot(&state, &infos);
    assert_eq!(snap.me, 0);
    let s2 = snap.load_snapshot(&infos).expect("restore must succeed");
    let p = s2.actor(s2.me).expect("restored player must resolve");
    assert_eq!(p.state.health, 100_000);
}

#[test]
fn restore_rejects_unknown_names() {
    let infos = snapshot_catalog();
    let mut state = State::default();
    let _ = state.spawn_actor(&infos, 0);
    let mut snap = StateSnapshot::create_snapshot(&state, &infos);
    snap.actors[0].info = "stranger".to_string();
    assert!(snap.load_snapshot(&infos).is_none());
}

#[test]
fn restore_rejects_out_of_range_fields() {
    let infos = snapshot_catalog();
    let mut state = State::default();
    let _ = state.spawn_actor(&infos, 0);
    let mut snap = StateSnapshot::create_snapshot(&state, &infos);
    snap.actors[0].state.pos.x = i64::MAX;
    assert!(snap.load_snapshot(&infos).is_none());
}

#[test]
fn bytes_round_trip() {
    let infos = snapshot_catalog();
    let mut state = State::default();
    let hg = state.spawn_actor(&infos, 0);
    state.me = hg;
    let mut g = *state.actor(hg).unwrap();
    g.state.pos = Vec2 { x: -9999, y: 42 };
    g.state.weapon_cooldown = 123;
    state.set_actor(hg, g);
    let _ = state.spawn_actor(&infos, 1);
    state.round = 9;
    state.game_state = GameState::Countdown {
        timer: Timer {
            timer: 250,
            end_time: 5000,
        },
    };
    let snap = StateSnapshot::create_snapshot(&state, &infos);
    let bytes = encode_snapshot(&snap);
    let snap2 = decode_snapshot(&bytes).expect("the encoding must parse");
    assert_eq!(snap2.me, snap.me);
    assert_eq!(snap2.round, snap.round);
    assert_eq!(snap2.game_state, snap.game_state);
    assert_eq!(snap2.spawner, snap.spawner);
    assert_eq!(snap2.actors.len(), snap.actors.len());
    for i in 0..snap.actors.len() {
        assert_eq!(snap2.actors[i].info, snap.actors[i].info);
        assert_eq!(snap2.actors[i].weapon, snap.actors[i].weapon);
        assert_eq!(snap2.actors[i].state, snap.actors[i].state);
    }
    // and the parsed snapshot restores like the state it came from
    let s2 = snap2.load_snapshot(&infos).expect("restore must succeed");
    assert_restored(&state, &s2, &infos);
}

#[test]
fn bytes_round_trip_every_phase() {
    let infos = snapshot_catalog();
    let phases = vec![
        GameState::Countdown {
            timer: Timer {
                timer: 1,
                end_time: 5000,
            },
        },
        GameState::Spawning {
            mobs_left_to_spawn: 4,
            mobs_total: 9,
        },
        GameState::WaitForDefeat,
        GameState::WaitForRespawn {
            timer: Timer {
                timer: 0,
                end_time: 1000,
            },
        },
        GameState::ReadyToRespawn,
    ];
    for gs in phases {
        let mut state = State::default();
        state.game_state = gs;
        let snap = StateSnapshot::create_snapshot(&state, &infos);
        let snap2 = decode_snapshot(&encode_snapshot(&snap)).expect("the encoding must parse");
        assert_eq!(snap2.game_state, gs);
    }
}

#[test]
fn decoder_rejects_mangled_buffers() {
    let infos = snapshot_catalog();
    let state = State::default();
    let snap = StateSnapshot::create_snapshot(&state, &infos);
    let bytes = encode_snapshot(&snap);
    // truncated
    let mut cut = bytes.clone();
    cut.pop();
    assert!(decode_snapshot(&cut).is_none());
    // trailing garbage
    let mut long = bytes.clone();
    long.push(0);
    assert!(decode_snapshot(&long).is_none());
    // a phase tag outside the range
    let mut bad = bytes.clone();
    bad[24] = 99;
    assert!(decode_snapshot(&bad).is_none());
    // empty
    assert!(decode_snapshot(&Vec::new()).is_none());
}
