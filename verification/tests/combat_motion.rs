//! Combat, decay and movement behaviour: cooldowns, projectiles, missiles,
//! particles, collision resolution.

use arcade_core::combat;
use arcade_core::infos::{ActorInfo, ImageIndex, Infos, WeaponInfo};
use arcade_core::motion;
use arcade_core::state::{ContactEvent, State, COLOR_SCALE, PAIN_FLASH_MS};
use arcade_core::vec2::Vec2;

fn no_frames() -> Vec<ImageIndex> {
    Vec::new()
}

fn combat_catalog() -> Infos {
    let fists = WeaponInfo {
        name: "fists".to_string(),
        rate_of_fire: 2000,
        frames: no_frames(),
        damage: (0, 0),
        mount_offset: 0,
        muzzle_offset: 100,
        spread: 0,
        range: 1500,
        projectile: None,
    };
    let pistol = WeaponInfo {
        name: "pistol".to_string(),
        rate_of_fire: 2000,
        frames: no_frames(),
        damage: (5000, 5000),
        mount_offset: 0,
        muzzle_offset: 200,
        spread: 0,
        range: 8000,
        projectile: Some(2),
    };
    let guy = ActorInfo {
        name: "guy".to_string(),
        frames: no_frames(),
        locomotion_frames: no_frames(),
        dead_frames: no_frames(),
        bot: false,
        speed: 5000,
        radius: 500,
        missile: false,
        shootable: true,
        health: 100_000,
        solid: true,
        particle: false,
        weapon: 1,
        offset: Vec2 { x: 0, y: 0 },
        rotate_to_face: false,
        missile_direct_damage: (0, 0),
        missile_splash_damage: (0, 0),
        max_age: 0,
        velocity: 0,
    };
    let zombie = ActorInfo {
        name: "zombie".to_string(),
        frames: no_frames(),
        locomotion_frames: no_frames(),
        dead_frames: no_frames(),
        bot: true,
        speed: 2000,
        radius: 500,
        missile: false,
        shootable: true,
        health: 50_000,
        solid: true,
        particle: false,
        weapon: 0,
        offset: Vec2 { x: 0, y: 0 },
        rotate_to_face: false,
        missile_direct_damage: (0, 0),
        missile_splash_damage: (0, 0),
        max_age: 0,
        velocity: 0,
    };
    let bullet = ActorInfo {
        name: "bullet".to_string(),
        frames: no_frames(),
        locomotion_frames: no_frames(),
        dead_frames: no_frames(),
        bot: false,
        speed: 0,
        radius: 100,
        missile: true,
        shootable: false,
        health: 1000,
        solid: false,
        particle: false,
        weapon: 0,
        offset: Vec2 { x: 0, y: 0 },
        rotate_to_face: true,
        missile_direct_damage: (10_000, 10_000),
        missile_splash_damage: (0, 0),
        max_age: 2000,
        velocity: 20_000,
    };
    let spatter = ActorInfo {
        name: "spatter".to_string(),
        frames: no_frames(),
        locomotion_frames: no_frames(),
        dead_frames: no_frames(),
        bot: false,
        speed: 0,
        radius: 100,
        missile: false,
        shootable: false,
        health: 1000,
        solid: false,
        particle: true,
        weapon: 0,
        offset: Vec2 { x: 0, y: 0 },
        rotate_to_face: false,
        missile_direct_damage: (0, 0),
        missile_splash_damage: (0, 0),
        max_age: 0,
        velocity: 0,
    };
    Infos {
        images: Vec::new(),
        weapons: vec![fists, pistol],
        actors: vec![guy, zombie, bullet, spatter],
    }
}

#[test]
fn firing_twice_quickly_spawns_one_projectile() {
    let infos = combat_catalog();
    assert!(infos.check());
    let mut state = State::default();
    let hg = state.spawn_actor(&infos, 0);
    let mut g = *state.actor(hg).unwrap();
    g.state.attack_dir = Vec2 { x: 1000, y: 0 };
    state.set_actor(hg, g);
    combat::attack(&mut state, &infos, 100);
    assert_eq!(state.actor_handles().len(), 2);
    // the pistol needs 500 milliseconds between shots; 100 have passed
    combat::attack(&mut state, &infos, 100);
    assert_eq!(state.actor_handles().len(), 2);
    // once the cooldown has fully decayed the next shot comes
    combat::attack(&mut state, &infos, 500);
    assert_eq!(state.actor_handles().len(), 3);
}

#[test]
fn projectile_launches_from_the_muzzle() {
    let infos = combat_catalog();
    let mut state = State::default();
    let hg = state.spawn_actor(&infos, 0);
    let mut g = *state.actor(hg).unwrap();
    g.state.attack_dir = Vec2 { x: 1000, y: 0 };
    state.set_actor(hg, g);
    combat::attack(&mut state, &infos, 16);
    let mut bullet = None;
    for h in state.actor_handles() {
        let a = *state.actor(h).unwrap();
        if a.info == 2 {
            bullet = Some(a);
        }
    }
    let b = bullet.expect("one projectile must have spawned");
    // muzzle: radius 500 plus muzzle offset 200 along the +x facing
    assert_eq!(b.state.pos, Vec2 { x: 700, y: 0 });
    assert_eq!(b.state.vel, Vec2 { x: 20_000, y: 0 });
    assert_eq!(b.state.owner, hg);
    // the shooter's cooldown is now 1_000_000 / 2000 milliseconds
    assert_eq!(state.actor(hg).unwrap().state.weapon_cooldown, 500);
}

#[test]
fn dead_actors_do_not_fire() {
    let infos = combat_catalog();
    let mut state = State::default();
    let hg = state.spawn_actor(&infos, 0);
    let mut g = *state.actor(hg).unwrap();
    g.state.attack_dir = Vec2 { x: 1000, y: 0 };
    g.state.health = 0;
    state.set_actor(hg, g);
    combat::attack(&mut state, &infos, 16);
    assert_eq!(state.actor_handles().len(), 1);
}

#[test]
fn missile_contact_applies_damage_and_spatter() {
    let infos = combat_catalog();
    let mut state = State::default();
    let hz = state.spawn_actor(&infos, 1);
    let hb = state.spawn_actor(&infos, 2);
    let mut b = *state.actor(hb).unwrap();
    b.state.pos = Vec2 { x: 2000, y: 3000 };
    state.set_actor(hb, b);
    state.contact_events.push(ContactEvent::Actor {
        actor: hb,
        other_actor: hz,
    });
    combat::missile_contact(&mut state, &infos);
    // the missile is gone, the zombie took exactly its direct damage
    assert!(state.actor(hb).is_none());
    let z = state.actor(hz).unwrap();
    assert_eq!(z.state.health, 40_000);
    assert_eq!(z.state.pain_timer.timer, 0);
    assert_eq!(z.state.pain_timer.end_time, PAIN_FLASH_MS);
    // eight spatter particles burst out at the impact point
    let mut spatters = 0;
    for h in state.actor_handles() {
        let a = *state.actor(h).unwrap();
        if a.info == 3 {
            spatters += 1;
            assert_eq!(a.state.pos, Vec2 { x: 2000, y: 3000 });
        }
    }
    assert_eq!(spatters, 8);
}

#[test]
fn particles_fade_and_despawn_at_zero_health() {
    let infos = combat_catalog();
    let mut state = State::default();
    let hs = state.spawn_actor(&infos, 3);
    combat::particle(&mut state, &infos, 400);
    let s = state.actor(hs).unwrap();
    assert_eq!(s.state.health, 600);
    assert_eq!(s.state.color.a, 600);
    combat::particle(&mut state, &infos, 400);
    assert!(state.actor(hs).is_some());
    // health reaches zero on this pass, so the particle despawns exactly now
    combat::particle(&mut state, &infos, 400);
    assert!(state.actor(hs).is_none());
}

#[test]
fn pain_flash_saturates_then_clears() {
    let infos = combat_catalog();
    let mut state = State::default();
    let hz = state.spawn_actor(&infos, 1);
    let mut z = *state.actor(hz).unwrap();
    z.state.pain_timer.timer = 0;
    state.set_actor(hz, z);
    combat::pain_timer(&mut state, &infos, 16);
    let a = state.actor(hz).unwrap();
    // within the first half of the window the tint is fully red
    assert_eq!(a.state.color.g, 0);
    assert_eq!(a.state.color.b, 0);
    combat::pain_timer(&mut state, &infos, 200);
    let a = state.actor(hz).unwrap();
    assert_eq!(a.state.color.g, COLOR_SCALE);
    assert_eq!(a.state.color.b, COLOR_SCALE);
}

#[test]
fn age_limit_despawns_actors() {
    let infos = combat_catalog();
    let mut state = State::default();
    let hb = state.spawn_actor(&infos, 2);
    combat::age(&mut state, &infos, 1000);
    assert!(state.actor(hb).is_some());
    assert_eq!(state.actor(hb).unwrap().state.age, 1000);
    combat::age(&mut state, &infos, 1000);
    // the bullet's lifetime is two seconds
    assert!(state.actor(hb).is_none());
}

#[test]
fn locomotion_accelerates_toward_the_input() {
    let infos = combat_catalog();
    let mut state = State::default();
    let hg = state.spawn_actor(&infos, 0);
    let mut g = *state.actor(hg).unwrap();
    g.state.locomotion_dir = Vec2 { x: 1000, y: 0 };
    state.set_actor(hg, g);
    motion::locomotion(&mut state, &infos, 100);
    let v1 = state.actor(hg).unwrap().state.vel;
    // the acceleration budget is speed squared times dt: 2500 this tick
    assert_eq!(v1, Vec2 { x: 2500, y: 0 });
    motion::locomotion(&mut state, &infos, 100);
    let v2 = state.actor(hg).unwrap().state.vel;
    assert_eq!(v2, Vec2 { x: 5000, y: 0 });
    // at the description's top speed the velocity settles
    motion::locomotion(&mut state, &infos, 100);
    assert_eq!(state.actor(hg).unwrap().state.vel, Vec2 { x: 5000, y: 0 });
}

#[test]
fn dead_actors_coast_to_rest() {
    let infos = combat_catalog();
    let mut state = State::default();
    let hg = state.spawn_actor(&infos, 0);
    let mut g = *state.actor(hg).unwrap();
    g.state.locomotion_dir = Vec2 { x: 1000, y: 0 };
    g.state.vel = Vec2 { x: 2000, y: 0 };
    g.state.health = 0;
    state.set_actor(hg, g);
    motion::locomotion(&mut state, &infos, 100);
    let a = state.actor(hg).unwrap();
    // the locomotion input is forced to zero and the velocity decays
    assert_eq!(a.state.locomotion_dir, Vec2 { x: 0, y: 0 });
    assert_eq!(a.state.vel, Vec2 { x: 0, y: 0 });
}

#[test]
fn head_on_movers_end_up_separated() {
    // two solid actors close head on; after the physics pass their centers
    // are again at least the radii sum apart
    let infos = combat_catalog();
    let mut state = State::default();
    let ha = state.spawn_actor(&infos, 0);
    let hb = state.spawn_actor(&infos, 1);
    let mut a = *state.actor(ha).unwrap();
    a.state.vel = Vec2 { x: 600, y: 0 };
    state.set_actor(ha, a);
    let mut b = *state.actor(hb).unwrap();
    b.state.pos = Vec2 { x: 1200, y: 0 };
    b.state.vel = Vec2 { x: -600, y: 0 };
    state.set_actor(hb, b);
    motion::physics(&mut state, &infos, 500);
    let pa = state.actor(ha).unwrap().state.pos;
    let pb = state.actor(hb).unwrap().state.pos;
    assert_eq!(pa, Vec2 { x: 200, y: 0 });
    assert_eq!(pb, Vec2 { x: 1200, y: 0 });
    assert!(pb.x - pa.x >= 1000);
    assert!(!state.contact_events.is_empty());
}

#[test]
fn passing_shots_do_not_block() {
    // a non-solid missile flying through a solid actor is not stopped
    let infos = combat_catalog();
    let mut state = State::default();
    let _hz = state.spawn_actor(&infos, 1);
    let hb = state.spawn_actor(&infos, 2);
    let mut b = *state.actor(hb).unwrap();
    b.state.pos = Vec2 { x: -500, y: 0 };
    b.state.vel = Vec2 { x: 20_000, y: 0 };
    state.set_actor(hb, b);
    motion::physics(&mut state, &infos, 50);
    assert_eq!(state.actor(hb).unwrap().state.pos, Vec2 { x: 500, y: 0 });
    assert_eq!(state.contact_events.len(), 0);
}

#[test]
fn sampler_stays_in_range() {
    for s in [0u32, 1, 7, 12345, u32::MAX] {
        let v = arcade_core::rand::sample_range(s, -50, 50);
        assert!(-50 <= v && v <= 50);
    }
    assert_eq!(arcade_core::rand::sample_range(5, 0, 9), 5);
    assert_eq!(arcade_core::rand::sample_range(13, 0, 9), 3);
    assert_eq!(arcade_core::rand::sample_range(7, 10, 10), 10);
}

#[test]
fn timers_clamp_and_report() {
    let mut t = arcade_core::state::Timer::start(100);
    assert!(!t.is_done());
    assert!(!t.tick(60));
    assert_eq!(t.time_left(), 40);
    assert!(t.tick(60));
    assert!(t.is_done());
    assert_eq!(t.timer, 100);
    assert_eq!(t.alpha(), 1000);
    let mut c = arcade_core::state::Cooldown { heat: 0 };
    assert!(c.activate(500));
    assert!(!c.activate(500));
    c.tick(200);
    assert_eq!(c.heat, 300);
    c.tick(400);
    assert_eq!(c.heat, 0);
}

#[test]
fn vector_math_is_exact() {
    let v = Vec2 { x: 3000, y: 4000 };
    assert_eq!(v.length(), 5000);
    assert_eq!(v.normalize(), Vec2 { x: 600, y: 800 });
    assert_eq!(Vec2 { x: 0, y: 0 }.normalize(), Vec2 { x: 0, y: 0 });
    let quarter = arcade_core::fixed::HALF_PI_MR;
    let r = Vec2 { x: 1000, y: 0 }.rotate(quarter);
    // a quarter turn moves the unit x vector near the unit y vector
    assert!(r.x.abs() <= 20);
    assert!((r.y - 1000).abs() <= 20);
}

#[test]
fn duplicate_events_hit_once() {
    // several identical events for one missile have its effects exactly
    // once: one despawn, one eight-particle burst, one damage draw
    let infos = combat_catalog();
    let mut state = State::default();
    let hz = state.spawn_actor(&infos, 1);
    let hb = state.spawn_actor(&infos, 2);
    for _ in 0..3 {
        state.contact_events.push(ContactEvent::Actor {
            actor: hb,
            other_actor: hz,
        });
    }
    combat::missile_contact(&mut state, &infos);
    assert!(state.actor(hb).is_none());
    assert_eq!(state.actor(hz).unwrap().state.health, 40_000);
    let mut spatters = 0;
    for h in state.actor_handles() {
        if state.actor(h).unwrap().info == 3 {
            spatters += 1;
        }
    }
    assert_eq!(spatters, 8);
}

#[test]
fn stale_event_handles_are_skipped() {
    // an event whose handles no longer resolve changes nothing
    let infos = combat_catalog();
    let mut state = State::default();
    let hz = state.spawn_actor(&infos, 1);
    let hb = state.spawn_actor(&infos, 2);
    state.despawn_actor(hb);
    state.contact_events.push(ContactEvent::Actor {
        actor: hb,
        other_actor: hz,
    });
    combat::missile_contact(&mut state, &infos);
    assert_eq!(state.actor(hz).unwrap().state.health, 50_000);
    assert_eq!(state.actor_handles().len(), 1);
}
