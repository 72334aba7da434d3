//! The round state machine: countdown, wave spawning, wait-for-defeat and
//! the respawn cycle.

use vstd::prelude::*;

use crate::arena::Handle;
use crate::fixed::{cos_mr, sin_mr, spec_clamp, MAX_DT, TWO_PI_MR};
use crate::infos::Infos;
use crate::rand::sample_angle;
use crate::state::{
    Actor, ActorState, GameState, State, Timer, COUNTDOWN_MS, RESPAWN_WAIT_MS, ROUND_CAP,
};
use crate::vec2::Vec2;

verus! {

/// The distance from the origin at which wave mobs appear (milli-units).
pub const SPAWN_RING_RADIUS_UNITS: i64 = 15;

/// The size of the wave spawned for round `round_after` (the round counter
/// after the countdown incremented it): the next round number, squared.
pub open spec fn spec_wave_size(round_after: int) -> int {
    (round_after + 1) * (round_after + 1)
}

/// A countdown that finishes while the counter reads `round_before` starts a
/// wave of exactly `(round_before + 2)` squared spawn requests: the counter
/// first increments, and the wave is one more than that, squared.  The
/// counter saturates at `ROUND_CAP`, a machine limit that keeps the squared
/// wave inside a 32-bit count, so the law is stated below the cap.
pub proof fn lemma_wave_size(round_before: int)
    requires
        0 <= round_before < ROUND_CAP,
    ensures
        spec_wave_size(round_before + 1) == (round_before + 2) * (round_before + 2),
{
}

/// Where a wave mob appears for ring angle `a`: on a fixed-radius ring
/// around the origin, with the fixed-point sine.
pub open spec fn spec_ring_point(a: int) -> Vec2 {
    Vec2 {
        x: (crate::fixed::cos_full_mr(a % (TWO_PI_MR as int)) * SPAWN_RING_RADIUS_UNITS) as i64,
        y: (crate::fixed::sin_full_mr(a % (TWO_PI_MR as int)) * SPAWN_RING_RADIUS_UNITS) as i64,
    }
}

/// `b` is exactly the wave mob that a spawn at ring angle `a` creates: a
/// fresh record of the actor description named `zombie`, standing on the
/// spawn ring.
pub open spec fn spec_ring_spawn_matches(infos: Infos, b: Actor, a: int) -> bool {
    exists|zi: int|
        #![trigger infos.actors@[zi]]
        {
            &&& 0 <= zi < infos.actors@.len()
            &&& infos.actors@[zi].name@ == "zombie"@
            &&& b == (Actor {
                handle: b.handle,
                info: zi as usize,
                weapon: infos.actors@[zi].weapon,
                state: ActorState {
                    pos: spec_ring_point(a),
                    ..ActorState::spec_initial(infos.actors@[zi].health)
                },
            })
        }
}

/// One fresh wave mob appeared: `hz` is new, carries the ring spawn for
/// angle `a`, and no other handle's validity changed.
pub open spec fn spec_spawned_one(
    pre: crate::arena::Arena<Actor>,
    post: crate::arena::Arena<Actor>,
    infos: Infos,
    hz: Handle,
    a: int,
) -> bool {
    &&& !pre.valid(hz)
    &&& post.valid(hz)
    &&& 0 <= a < TWO_PI_MR
    &&& spec_ring_spawn_matches(infos, post.at(hz), a)
    &&& forall|h2: Handle| h2 != hz ==> (#[trigger] post.valid(h2) <==> pre.valid(h2))
}

/// Spawns one wave mob at a pseudo-random point on the spawn ring.
pub fn spawn_wave_mob(state: &mut State, infos: &Infos)
    requires
        old(state).wf(*infos),
        infos.wf(),
        infos.has_actor_named("zombie"@),
    ensures
        final(state).wf(*infos),
        final(state).me == old(state).me,
        final(state).spawner == old(state).spawner,
        final(state).contact_events == old(state).contact_events,
        final(state).bounds == old(state).bounds,
        final(state).round == old(state).round,
        final(state).game_state == old(state).game_state,
        forall|h: Handle|
            old(state).actors.valid(h) ==> #[trigger] final(state).actors.valid(h) && final(state).actors.at(h) == old(state).actors.at(h),
        exists|hz: Handle, a: int|
            spec_spawned_one(old(state).actors, final(state).actors, *infos, hz, a),
{
    let zi = match infos.find_actor("zombie") {
        Some(zi) => zi,
        None => {
            proof {
                assert(false);
            }
            vstd::pervasive::unreached()
        },
    };
    let raw = crate::rand::random_u32();
    let a = sample_angle(raw);
    let c = cos_mr(a);
    let s = sin_mr(a);
    let pos = Vec2 { x: c * SPAWN_RING_RADIUS_UNITS, y: s * SPAWN_RING_RADIUS_UNITS };
    let hz = state.spawn_actor(infos, zi);
    let ghost mid = *state;
    let z = match state.actor(hz) {
        Some(z) => *z,
        None => {
            proof {
                assert(false);
            }
            vstd::pervasive::unreached()
        },
    };
    let mut z2 = z;
    z2.state.pos = pos;
    proof {
        assert(z2.wf(*infos));
    }
    let _ = state.set_actor(hz, z2);
    proof {
        assert(state.actors.at(hz) == z2);
        assert(spec_ring_spawn_matches(*infos, state.actors.at(hz), a as int)) by {
            assert(infos.actors@[zi as int].name@ == "zombie"@);
            assert(pos == spec_ring_point(a as int));
        }
        assert forall|h: Handle|
            old(state).actors.valid(h) implies #[trigger] state.actors.valid(h)
            && state.actors.at(h) == old(state).actors.at(h) by {
            if h.index == hz.index {
                state.actors.lemma_index_unique(h, hz);
                assert(false);
            }
        }
        assert(spec_spawned_one(old(state).actors, state.actors, *infos, hz, a as int));
    }
}

/// What the phase machine does in one tick, given the old state: the timer
/// value a countdown reaches, and each transition's exact successor.
pub open spec fn spec_ticked_timer(t: Timer, dt: int) -> Timer {
    Timer { timer: spec_clamp(t.timer + dt, 0, t.end_time as int) as i64, end_time: t.end_time }
}

/// The round machine's pass.  A countdown advances and, when done, bumps the
/// round (saturating at the cap) and starts a wave of the squared next round
/// number.  A wave spawns one mob per tick on the spawn ring until
/// exhausted, then waits for defeat.  Waiting ends in a fresh countdown once
/// no living bot remains, or in a respawn wait when the player has died.
/// The respawn wait counts down to the ready phase, which only an outside
/// restart leaves.
#[verifier::rlimit(60)]
pub fn game_state(state: &mut State, infos: &Infos, dt: i64)
    requires
        old(state).wf(*infos),
        infos.wf(),
        infos.has_actor_named("zombie"@),
        0 <= dt <= MAX_DT,
    ensures
        final(state).wf(*infos),
        final(state).me == old(state).me,
        final(state).spawner == old(state).spawner,
        final(state).contact_events == old(state).contact_events,
        final(state).bounds == old(state).bounds,
        old(state).game_state matches GameState::Countdown { timer } ==> {
            let t2 = spec_ticked_timer(timer, dt as int);
            &&& final(state).actors == old(state).actors
            &&& if t2.spec_is_done() {
                &&& final(state).round == if old(state).round < ROUND_CAP {
                    old(state).round + 1
                } else {
                    ROUND_CAP as int
                }
                &&& final(state).game_state == (GameState::Spawning {
                    mobs_left_to_spawn: spec_wave_size(final(state).round as int) as u32,
                    mobs_total: spec_wave_size(final(state).round as int) as u32,
                })
            } else {
                &&& final(state).round == old(state).round
                &&& final(state).game_state == (GameState::Countdown { timer: t2 })
            }
        },
        old(state).game_state matches GameState::Spawning { mobs_left_to_spawn, mobs_total } ==> {
            &&& final(state).round == old(state).round
            &&& if mobs_left_to_spawn > 0 {
                &&& final(state).game_state == (GameState::Spawning {
                    mobs_left_to_spawn: (mobs_left_to_spawn - 1) as u32,
                    mobs_total,
                })
                &&& forall|h: Handle|
                    old(state).actors.valid(h) ==> #[trigger] final(state).actors.valid(h)
                        && final(state).actors.at(h) == old(state).actors.at(h)
                &&& exists|hz: Handle, a: int|
                    spec_spawned_one(old(state).actors, final(state).actors, *infos, hz, a)
            } else {
                &&& final(state).game_state == GameState::WaitForDefeat
                &&& final(state).actors == old(state).actors
            }
        },
        old(state).game_state is WaitForDefeat ==> {
            &&& final(state).actors == old(state).actors
            &&& final(state).round == old(state).round
            &&& {
                let cleared = old(state).spec_mobs_left(*infos) == 0;
                let me = old(state).me;
                if old(state).actors.valid(me) && old(state).actors.at(me).state.health <= 0 {
                    final(state).game_state == (GameState::WaitForRespawn {
                        timer: Timer { timer: 0, end_time: RESPAWN_WAIT_MS },
                    })
                } else if cleared {
                    final(state).game_state == (GameState::Countdown {
                        timer: Timer { timer: 0, end_time: COUNTDOWN_MS },
                    })
                } else {
                    final(state).game_state == GameState::WaitForDefeat
                }
            }
        },
        old(state).game_state matches GameState::WaitForRespawn { timer } ==> {
            let t2 = spec_ticked_timer(timer, dt as int);
            &&& final(state).actors == old(state).actors
            &&& final(state).round == old(state).round
            &&& final(state).game_state == if t2.spec_is_done() {
                GameState::ReadyToRespawn
            } else {
                GameState::WaitForRespawn { timer: t2 }
            }
        },
        old(state).game_state is ReadyToRespawn ==> *final(state) == *old(state),
{
    let gs = state.game_state;
    match gs {
        GameState::Countdown { timer } => {
            let mut t = timer;
            let done = t.tick(dt);
            if done {
                let round2: u32 = if state.round < ROUND_CAP {
                    state.round + 1
                } else {
                    ROUND_CAP
                };
                state.round = round2;
                proof {
                    assert(0 <= (round2 as int) + 1 <= 60_001);
                    assert(((round2 as int) + 1) * ((round2 as int) + 1) <= 3_600_240_001int
                        && ((round2 as int) + 1) * ((round2 as int) + 1) >= 0) by (nonlinear_arith)
                        requires
                            0 <= (round2 as int) + 1 <= 60_001,
                    ;
                }
                let next = (round2 as u64) + 1;
                let wave64 = next * next;
                let wave = wave64 as u32;
                state.game_state = GameState::Spawning {
                    mobs_left_to_spawn: wave,
                    mobs_total: wave,
                };
            } else {
                state.game_state = GameState::Countdown { timer: t };
            }
        },
        GameState::Spawning { mobs_left_to_spawn, mobs_total } => {
            if mobs_left_to_spawn > 0 {
                state.game_state = GameState::Spawning {
                    mobs_left_to_spawn: mobs_left_to_spawn - 1,
                    mobs_total,
                };
                spawn_wave_mob(state, infos);
            } else {
                state.game_state = GameState::WaitForDefeat;
            }
        },
        GameState::WaitForDefeat => {
            let left = state.mobs_left(infos);
            if left == 0 {
                state.game_state = GameState::Countdown { timer: Timer::start(COUNTDOWN_MS) };
            }
            let alive = match state.actor(state.me) {
                Some(p) => Some(p.is_alive()),
                None => None,
            };
            match alive {
                Some(false) => {
                    state.game_state = GameState::WaitForRespawn {
                        timer: Timer::start(RESPAWN_WAIT_MS),
                    };
                },
                _ => {},
            }
        },
        GameState::WaitForRespawn { timer } => {
            let mut t = timer;
            let done = t.tick(dt);
            if done {
                state.game_state = GameState::ReadyToRespawn;
            } else {
                state.game_state = GameState::WaitForRespawn { timer: t };
            }
        },
        GameState::ReadyToRespawn => {},
    }
}

} // verus!
