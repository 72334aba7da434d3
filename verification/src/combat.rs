//! Combat and decay: weapon cooldowns and projectile spawning, missile
//! contact damage, particle decay, the pain flash, animation and aging.

use vstd::prelude::*;

use crate::arena::Handle;
use crate::fixed::{
    spec_clamp, clamp_i64, MAX_DT, PI_MR, POS_LIMIT, SCALE, TIME_LIMIT, TWO_PI_MR, VEL_LIMIT,
};
use crate::infos::Infos;
use crate::state::{
    Actor, ActorState, Color, ContactEvent, State, Timer, COLOR_SCALE, FRAME_LIMIT, HEALTH_FLOOR,
};
use crate::vec2::Vec2;

verus! {

/// Milli-frames the animation counter gains per millisecond times one
/// thousand: ten frames per second.
pub const FRAME_RATE_MILLI: i64 = 10;

/// One actor's pain-flash update: the pain timer advances, and the green and
/// blue channels are zeroed for the first half of the flash window (a fully
/// red tint) and fully saturated afterwards.
pub open spec fn spec_pain_step(a: Actor, dt: int) -> Actor {
    let t = Timer {
        timer: spec_clamp(a.state.pain_timer.timer + dt, 0, a.state.pain_timer.end_time as int)
            as i64,
        end_time: a.state.pain_timer.end_time,
    };
    let gb: i64 = if t.spec_alpha() < COLOR_SCALE / 2 {
        0
    } else {
        COLOR_SCALE
    };
    Actor {
        state: ActorState {
            pain_timer: t,
            color: Color { g: gb, b: gb, ..a.state.color },
            ..a.state
        },
        ..a
    }
}

/// Computes one actor's pain-flash update.
pub fn pain_step(a: &Actor, dt: i64) -> (r: Actor)
    requires
        a.state.wf(),
        0 <= dt <= MAX_DT,
    ensures
        r == spec_pain_step(*a, dt as int),
        r.state.wf(),
        r.handle == a.handle,
        r.info == a.info,
        r.weapon == a.weapon,
{
    let mut t = a.state.pain_timer;
    let _ = t.tick(dt);
    let alpha = t.alpha();
    let gb: i64 = if alpha < 500 {
        0
    } else {
        1000
    };
    let mut r = *a;
    r.state.pain_timer = t;
    r.state.color.g = gb;
    r.state.color.b = gb;
    r
}

/// One actor's animation update: the frame counter advances ten frames per
/// second, saturating at the counter's cap.
pub open spec fn spec_animation_step(a: Actor, dt: int) -> Actor {
    Actor {
        state: ActorState {
            frame: spec_clamp(a.state.frame + FRAME_RATE_MILLI * dt, 0, FRAME_LIMIT as int) as i64,
            ..a.state
        },
        ..a
    }
}

/// Computes one actor's animation update.
pub fn animation_step(a: &Actor, dt: i64) -> (r: Actor)
    requires
        a.state.wf(),
        0 <= dt <= MAX_DT,
    ensures
        r == spec_animation_step(*a, dt as int),
        r.state.wf(),
        r.handle == a.handle,
{
    let f = clamp_i64(a.state.frame + FRAME_RATE_MILLI * dt, 0, FRAME_LIMIT);
    let mut r = *a;
    r.state.frame = f;
    r
}

/// The pain-flash pass over every actor.
pub fn pain_timer(state: &mut State, infos: &Infos, dt: i64)
    requires
        old(state).wf(*infos),
        infos.wf(),
        0 <= dt <= MAX_DT,
    ensures
        final(state).wf(*infos),
        forall|h: Handle|
            #[trigger] final(state).actors.valid(h) <==> old(state).actors.valid(h),
        forall|h: Handle|
            old(state).actors.valid(h) ==> #[trigger] final(state).actors.at(h) == spec_pain_step(
                old(state).actors.at(h),
                dt as int,
            ),
        final(state).spawner == old(state).spawner,
        final(state).me == old(state).me,
        final(state).contact_events == old(state).contact_events,
        final(state).round == old(state).round,
        final(state).game_state == old(state).game_state,
        final(state).bounds == old(state).bounds,
{
    let ks = state.actor_handles();
    let n = ks.len();
    let mut i: usize = 0;
    while i < n
        invariant
            i <= n,
            n == ks@.len(),
            infos.wf(),
            0 <= dt <= MAX_DT,
            state.wf(*infos),
            ks@ == old(state).actors.live_handles(),
            forall|j: int| 0 <= j < ks@.len() ==> old(state).actors.valid(#[trigger] ks@[j]),
            forall|hh: Handle| old(state).actors.valid(hh) ==> #[trigger] ks@.contains(hh),
            forall|j: int, k: int| 0 <= j < k < ks@.len() ==> ks@[j].index < ks@[k].index,
            forall|h: Handle|
                #[trigger] state.actors.valid(h) <==> old(state).actors.valid(h),
            forall|j: int|
                0 <= j < i ==> #[trigger] state.actors.at(ks@[j]) == spec_pain_step(
                    old(state).actors.at(ks@[j]),
                    dt as int,
                ),
            forall|j: int|
                i <= j < ks@.len() ==> #[trigger] state.actors.at(ks@[j]) == old(state).actors.at(ks@[j]),
            state.spawner == old(state).spawner,
            state.me == old(state).me,
            state.contact_events == old(state).contact_events,
            state.round == old(state).round,
            state.game_state == old(state).game_state,
            state.bounds == old(state).bounds,
        decreases n - i,
    {
        let h = ks[i];
        let a = match state.actor(h) {
            Some(a) => *a,
            None => {
                proof {
                    assert(false);
                }
                vstd::pervasive::unreached()
            },
        };
        let updated = pain_step(&a, dt);
        proof {
            assert(a.wf(*infos));
            assert(updated.wf(*infos));
        }
        let ghost pre = *state;
        let _ = state.set_actor(h, updated);
        proof {
            assert forall|j: int|
                0 <= j < ks@.len() && j != i implies #[trigger] state.actors.at(ks@[j])
                == pre.actors.at(ks@[j]) by {
                if ks@[j].index == h.index {
                    pre.actors.lemma_index_unique(ks@[j], h);
                    assert(j == i);
                }
            }
        }
        i = i + 1;
    }
    proof {
        assert forall|h: Handle| old(state).actors.valid(h) implies #[trigger] state.actors.at(h)
            == spec_pain_step(old(state).actors.at(h), dt as int) by {
            assert(ks@.contains(h));
            let j = choose|j: int| 0 <= j < ks@.len() && ks@[j] == h;
        }
    }
}

/// The animation pass over every actor.
pub fn animation(state: &mut State, infos: &Infos, dt: i64)
    requires
        old(state).wf(*infos),
        infos.wf(),
        0 <= dt <= MAX_DT,
    ensures
        final(state).wf(*infos),
        forall|h: Handle|
            #[trigger] final(state).actors.valid(h) <==> old(state).actors.valid(h),
        forall|h: Handle|
            old(state).actors.valid(h) ==> #[trigger] final(state).actors.at(h)
                == spec_animation_step(old(state).actors.at(h), dt as int),
        final(state).spawner == old(state).spawner,
        final(state).me == old(state).me,
        final(state).contact_events == old(state).contact_events,
        final(state).round == old(state).round,
        final(state).game_state == old(state).game_state,
        final(state).bounds == old(state).bounds,
{
    let ks = state.actor_handles();
    let n = ks.len();
    let mut i: usize = 0;
    while i < n
        invariant
            i <= n,
            n == ks@.len(),
            infos.wf(),
            0 <= dt <= MAX_DT,
            state.wf(*infos),
            ks@ == old(state).actors.live_handles(),
            forall|j: int| 0 <= j < ks@.len() ==> old(state).actors.valid(#[trigger] ks@[j]),
            forall|hh: Handle| old(state).actors.valid(hh) ==> #[trigger] ks@.contains(hh),
            forall|j: int, k: int| 0 <= j < k < ks@.len() ==> ks@[j].index < ks@[k].index,
            forall|h: Handle|
                #[trigger] state.actors.valid(h) <==> old(state).actors.valid(h),
            forall|j: int|
                0 <= j < i ==> #[trigger] state.actors.at(ks@[j]) == spec_animation_step(
                    old(state).actors.at(ks@[j]),
                    dt as int,
                ),
            forall|j: int|
                i <= j < ks@.len() ==> #[trigger] state.actors.at(ks@[j]) == old(state).actors.at(ks@[j]),
            state.spawner == old(state).spawner,
            state.me == old(state).me,
            state.contact_events == old(state).contact_events,
            state.round == old(state).round,
            state.game_state == old(state).game_state,
            state.bounds == old(state).bounds,
        decreases n - i,
    {
        let h = ks[i];
        let a = match state.actor(h) {
            Some(a) => *a,
            None => {
                proof {
                    assert(false);
                }
                vstd::pervasive::unreached()
            },
        };
        let updated = animation_step(&a, dt);
        proof {
            assert(a.wf(*infos));
            assert(updated.wf(*infos));
        }
        let ghost pre = *state;
        let _ = state.set_actor(h, updated);
        proof {
            assert forall|j: int|
                0 <= j < ks@.len() && j != i implies #[trigger] state.actors.at(ks@[j])
                == pre.actors.at(ks@[j]) by {
                if ks@[j].index == h.index {
                    pre.actors.lemma_index_unique(ks@[j], h);
                    assert(j == i);
                }
            }
        }
        i = i + 1;
    }
    proof {
        assert forall|h: Handle| old(state).actors.valid(h) implies #[trigger] state.actors.at(h)
            == spec_animation_step(old(state).actors.at(h), dt as int) by {
            assert(ks@.contains(h));
            let j = choose|j: int| 0 <= j < ks@.len() && ks@[j] == h;
        }
    }
}

/// A particle's decayed state: health drops by the elapsed time (saturating
/// far below zero, never clamped to it) and the alpha channel tracks the
/// remaining fraction of the description's starting health.
pub open spec fn spec_particle_decay(a: Actor, infos: Infos, dt: int) -> Actor {
    let h2 = if a.state.health - dt < HEALTH_FLOOR {
        HEALTH_FLOOR as int
    } else {
        a.state.health - dt
    };
    let init = infos.actors@[a.info as int].health;
    let alpha = if init > 0 {
        spec_clamp((h2 * COLOR_SCALE) / (init as int), 0, COLOR_SCALE as int)
    } else {
        0
    };
    Actor {
        state: ActorState {
            health: h2 as i64,
            color: Color { a: alpha as i64, ..a.state.color },
            ..a.state
        },
        ..a
    }
}

/// Computes a particle's decayed state.
pub fn particle_decay(a: &Actor, infos: &Infos, dt: i64) -> (r: Actor)
    requires
        a.wf(*infos),
        infos.wf(),
        0 <= dt <= MAX_DT,
    ensures
        r == spec_particle_decay(*a, *infos, dt as int),
        r.wf(*infos),
        r.handle == a.handle,
    {
    let h2 = if a.state.health - dt < HEALTH_FLOOR {
        HEALTH_FLOOR
    } else {
        a.state.health - dt
    };
    let init = a.actor_info(infos).health;
    let alpha: i64 = if init > 0 {
        proof {
            crate::fixed::lemma_mul_bound(h2 as int, 1000, 1_000_000_000_000, 1000);
        }
        let num = h2 * 1000;
        let q = crate::fixed::div_trunc(num, init);
        proof {
            crate::fixed::lemma_sdiv_bound(num as int, init as int, 1_000_000_000_000_000);
            vstd::arithmetic::div_mod::lemma_div_pos_is_pos(
                1_000_000_000_000_000,
                init as int,
            );
            vstd::arithmetic::div_mod::lemma_div_is_ordered(
                1_000_000_000_000_000,
                1_000_000_000_000_000,
                init as int,
            );
        }
        let c = clamp_i64(q, 0, 1000);
        proof {
            assert(c == spec_clamp(
                crate::fixed::sdiv(num as int, init as int),
                0,
                1000,
            ));
            assert(h2 >= 0 ==> crate::fixed::sdiv(num as int, init as int) == (h2 as int * 1000)
                / (init as int));
            if h2 < 0 {
                vstd::arithmetic::div_mod::lemma_div_pos_is_pos(-(num as int), init as int);
                assert(crate::fixed::sdiv(num as int, init as int) <= 0);
                vstd::arithmetic::div_mod::lemma_fundamental_div_mod(num as int, init as int);
                vstd::arithmetic::div_mod::lemma_mod_bound(num as int, init as int);
                assert((num as int) / (init as int) <= 0) by (nonlinear_arith)
                    requires
                        num as int == (init as int) * ((num as int) / (init as int)) + (
                        num as int) % (init as int),
                        0 <= (num as int) % (init as int) < (init as int),
                        num < 0,
                        init > 0,
                ;
            }
        }
        c
    } else {
        0
    };
    let mut r = *a;
    r.state.health = h2;
    r.state.color.a = alpha;
    r
}

/// The particle pass: every particle-flagged actor loses health equal to the
/// elapsed time and fades; it is despawned exactly when its health has
/// reached zero.  Non-particle actors are untouched.
pub fn particle(state: &mut State, infos: &Infos, dt: i64)
    requires
        old(state).wf(*infos),
        infos.wf(),
        0 <= dt <= MAX_DT,
    ensures
        final(state).wf(*infos),
        forall|h: Handle|
            old(state).actors.valid(h) && !infos.actors@[old(state).actors.at(
                h,
            ).info as int].particle ==> #[trigger] final(state).actors.valid(h) && final(state).actors.at(h) == old(state).actors.at(h),
        forall|h: Handle|
            old(state).actors.valid(h) && infos.actors@[old(state).actors.at(
                h,
            ).info as int].particle ==> (#[trigger] final(state).actors.valid(h) <==> spec_particle_decay(
                old(state).actors.at(h),
                *infos,
                dt as int,
            ).state.health > 0),
        forall|h: Handle|
            old(state).actors.valid(h) && infos.actors@[old(state).actors.at(
                h,
            ).info as int].particle && #[trigger] final(state).actors.valid(h) ==> final(state).actors.at(h) == spec_particle_decay(old(state).actors.at(h), *infos, dt as int),
        forall|h: Handle|
            #[trigger] final(state).actors.valid(h) ==> old(state).actors.valid(h),
        final(state).spawner == old(state).spawner,
        final(state).me == old(state).me,
        final(state).contact_events == old(state).contact_events,
        final(state).round == old(state).round,
        final(state).game_state == old(state).game_state,
        final(state).bounds == old(state).bounds,
{
    let ks = state.actor_handles();
    let n = ks.len();
    let mut i: usize = 0;
    while i < n
        invariant
            i <= n,
            n == ks@.len(),
            infos.wf(),
            0 <= dt <= MAX_DT,
            state.wf(*infos),
            ks@ == old(state).actors.live_handles(),
            forall|j: int| 0 <= j < ks@.len() ==> old(state).actors.valid(#[trigger] ks@[j]),
            forall|hh: Handle| old(state).actors.valid(hh) ==> #[trigger] ks@.contains(hh),
            forall|j: int, k: int| 0 <= j < k < ks@.len() ==> ks@[j].index < ks@[k].index,
            forall|h: Handle|
                #[trigger] state.actors.valid(h) ==> old(state).actors.valid(h),
            forall|j: int|
                0 <= j < i && !infos.actors@[old(state).actors.at(ks@[j]).info as int].particle
                    ==> #[trigger] state.actors.valid(ks@[j]) && state.actors.at(ks@[j]) == old(state).actors.at(ks@[j]),
            forall|j: int|
                0 <= j < i && infos.actors@[old(state).actors.at(ks@[j]).info as int].particle ==> (
                #[trigger] state.actors.valid(ks@[j]) <==> spec_particle_decay(
                    old(state).actors.at(ks@[j]),
                    *infos,
                    dt as int,
                ).state.health > 0),
            forall|j: int|
                0 <= j < i && infos.actors@[old(state).actors.at(ks@[j]).info as int].particle
                    && #[trigger] state.actors.valid(ks@[j]) ==> state.actors.at(ks@[j])
                    == spec_particle_decay(old(state).actors.at(ks@[j]), *infos, dt as int),
            forall|j: int|
                i <= j < ks@.len() ==> #[trigger] state.actors.valid(ks@[j]) && state.actors.at(
                    ks@[j],
                ) == old(state).actors.at(ks@[j]),
            state.spawner == old(state).spawner,
            state.me == old(state).me,
            state.contact_events == old(state).contact_events,
            state.round == old(state).round,
            state.game_state == old(state).game_state,
            state.bounds == old(state).bounds,
        decreases n - i,
    {
        let h = ks[i];
        let a = match state.actor(h) {
            Some(a) => *a,
            None => {
                proof {
                    assert(false);
                }
                vstd::pervasive::unreached()
            },
        };
        let is_particle = a.actor_info(infos).particle;
        let ghost pre = *state;
        if is_particle {
            let updated = particle_decay(&a, infos, dt);
            proof {
                assert(a.wf(*infos));
                assert(updated.wf(*infos));
            }
            let alive2 = updated.is_alive();
            let _ = state.set_actor(h, updated);
            let ghost mid = *state;
            if !alive2 {
                state.despawn_actor(h);
            }
            proof {
                assert forall|j: int|
                    0 <= j < ks@.len() && j != i implies #[trigger] state.actors.valid(ks@[j])
                    == pre.actors.valid(ks@[j]) && (pre.actors.valid(ks@[j])
                    ==> state.actors.at(ks@[j]) == pre.actors.at(ks@[j])) by {
                    if ks@[j].index == h.index {
                        pre.actors.lemma_index_unique(ks@[j], h);
                        assert(false);
                    } else {
                        assert(mid.actors.valid(ks@[j]) == pre.actors.valid(ks@[j]));
                        if pre.actors.valid(ks@[j]) {
                            assert(mid.actors.at(ks@[j]) == pre.actors.at(ks@[j]));
                        }
                    }
                }
            }
        }
        proof {
            assert forall|j: int|
                i + 1 <= j < ks@.len() implies #[trigger] state.actors.valid(ks@[j])
                && state.actors.at(ks@[j]) == old(state).actors.at(ks@[j]) by {
                assert(pre.actors.valid(ks@[j]));
                assert(pre.actors.at(ks@[j]) == old(state).actors.at(ks@[j]));
            }
            assert forall|j: int|
                0 <= j < i + 1 && !infos.actors@[old(state).actors.at(ks@[j]).info as int].particle
                implies #[trigger] state.actors.valid(ks@[j]) && state.actors.at(ks@[j]) == old(state).actors.at(ks@[j]) by {
                if j == i {
                    assert(pre.actors.valid(ks@[j]));
                    assert(pre.actors.at(ks@[j]) == old(state).actors.at(ks@[j]));
                }
            }
            assert forall|j: int|
                0 <= j < i + 1 && infos.actors@[old(state).actors.at(ks@[j]).info as int].particle
                implies (#[trigger] state.actors.valid(ks@[j]) <==> spec_particle_decay(
                    old(state).actors.at(ks@[j]),
                    *infos,
                    dt as int,
                ).state.health > 0) by {
                if j == i {
                    assert(pre.actors.valid(ks@[j]));
                    assert(pre.actors.at(ks@[j]) == old(state).actors.at(ks@[j]));
                }
            }
            assert forall|j: int|
                0 <= j < i + 1 && infos.actors@[old(state).actors.at(ks@[j]).info as int].particle
                && #[trigger] state.actors.valid(ks@[j]) implies state.actors.at(ks@[j])
                == spec_particle_decay(old(state).actors.at(ks@[j]), *infos, dt as int) by {
                if j == i {
                    assert(pre.actors.valid(ks@[j]));
                    assert(pre.actors.at(ks@[j]) == old(state).actors.at(ks@[j]));
                }
            }
        }
        i = i + 1;
    }
    proof {
        assert forall|h: Handle|
            old(state).actors.valid(h) && !infos.actors@[old(state).actors.at(
                h,
            ).info as int].particle implies #[trigger] state.actors.valid(h) && state.actors.at(h)
            == old(state).actors.at(h) by {
            assert(ks@.contains(h));
            let j = choose|j: int| 0 <= j < ks@.len() && ks@[j] == h;
        }
        assert forall|h: Handle|
            old(state).actors.valid(h) && infos.actors@[old(state).actors.at(
                h,
            ).info as int].particle implies (#[trigger] state.actors.valid(h)
            <==> spec_particle_decay(old(state).actors.at(h), *infos, dt as int).state.health
            > 0) by {
            assert(ks@.contains(h));
            let j = choose|j: int| 0 <= j < ks@.len() && ks@[j] == h;
        }
        assert forall|h: Handle|
            old(state).actors.valid(h) && infos.actors@[old(state).actors.at(
                h,
            ).info as int].particle && #[trigger] state.actors.valid(h) implies state.actors.at(h)
            == spec_particle_decay(old(state).actors.at(h), *infos, dt as int) by {
            assert(ks@.contains(h));
            let j = choose|j: int| 0 <= j < ks@.len() && ks@[j] == h;
        }
    }
}

/// One actor's age after a tick, saturating at the engine's time cap.
pub open spec fn spec_aged(a: Actor, dt: int) -> int {
    if a.state.age + dt > TIME_LIMIT {
        TIME_LIMIT as int
    } else {
        a.state.age + dt
    }
}

/// Whether an actor's age has exhausted its description's lifetime.
pub open spec fn spec_age_expired(a: Actor, infos: Infos, dt: int) -> bool {
    infos.actors@[a.info as int].max_age > 0 && spec_aged(a, dt) >= infos.actors@[a.info as int].max_age
}

/// The aging pass: every actor's age grows by the elapsed time; an actor
/// whose description sets a lifetime despawns once its age reaches it.
pub fn age(state: &mut State, infos: &Infos, dt: i64)
    requires
        old(state).wf(*infos),
        infos.wf(),
        0 <= dt <= MAX_DT,
    ensures
        final(state).wf(*infos),
        forall|h: Handle|
            old(state).actors.valid(h) ==> (#[trigger] final(state).actors.valid(h) <==> !spec_age_expired(
                old(state).actors.at(h),
                *infos,
                dt as int,
            )),
        forall|h: Handle|
            old(state).actors.valid(h) && #[trigger] final(state).actors.valid(h) ==> final(state).actors.at(h) == (Actor {
                state: ActorState {
                    age: spec_aged(old(state).actors.at(h), dt as int) as i64,
                    ..old(state).actors.at(h).state
                },
                ..old(state).actors.at(h)
            }),
        forall|h: Handle|
            #[trigger] final(state).actors.valid(h) ==> old(state).actors.valid(h),
        final(state).spawner == old(state).spawner,
        final(state).me == old(state).me,
        final(state).contact_events == old(state).contact_events,
        final(state).round == old(state).round,
        final(state).game_state == old(state).game_state,
        final(state).bounds == old(state).bounds,
{
    let ks = state.actor_handles();
    let n = ks.len();
    let mut i: usize = 0;
    while i < n
        invariant
            i <= n,
            n == ks@.len(),
            infos.wf(),
            0 <= dt <= MAX_DT,
            state.wf(*infos),
            ks@ == old(state).actors.live_handles(),
            forall|j: int| 0 <= j < ks@.len() ==> old(state).actors.valid(#[trigger] ks@[j]),
            forall|j: int, k: int| 0 <= j < k < ks@.len() ==> ks@[j].index < ks@[k].index,
            forall|h: Handle|
                #[trigger] state.actors.valid(h) ==> old(state).actors.valid(h),
            forall|j: int|
                0 <= j < i ==> (#[trigger] state.actors.valid(ks@[j]) <==> !spec_age_expired(
                    old(state).actors.at(ks@[j]),
                    *infos,
                    dt as int,
                )),
            forall|j: int|
                0 <= j < i && #[trigger] state.actors.valid(ks@[j]) ==> state.actors.at(ks@[j])
                    == (Actor {
                    state: ActorState {
                        age: spec_aged(old(state).actors.at(ks@[j]), dt as int) as i64,
                        ..old(state).actors.at(ks@[j]).state
                    },
                    ..old(state).actors.at(ks@[j])
                }),
            forall|j: int|
                i <= j < ks@.len() ==> #[trigger] state.actors.valid(ks@[j]) && state.actors.at(
                    ks@[j],
                ) == old(state).actors.at(ks@[j]),
            state.spawner == old(state).spawner,
            state.me == old(state).me,
            state.contact_events == old(state).contact_events,
            state.round == old(state).round,
            state.game_state == old(state).game_state,
            state.bounds == old(state).bounds,
        decreases n - i,
    {
        let h = ks[i];
        let a = match state.actor(h) {
            Some(a) => *a,
            None => {
                proof {
                    assert(false);
                }
                vstd::pervasive::unreached()
            },
        };
        let aged = if a.state.age > TIME_LIMIT - dt {
            TIME_LIMIT
        } else {
            a.state.age + dt
        };
        let mut updated = a;
        updated.state.age = aged;
        let max_age = a.actor_info(infos).max_age;
        proof {
            assert(a.wf(*infos));
            assert(updated.wf(*infos));
        }
        let ghost pre = *state;
        let _ = state.set_actor(h, updated);
        let ghost mid = *state;
        if max_age > 0 && aged >= max_age {
            state.despawn_actor(h);
        }
        proof {
            assert forall|j: int|
                0 <= j < ks@.len() && j != i implies #[trigger] state.actors.valid(ks@[j])
                == pre.actors.valid(ks@[j]) && (pre.actors.valid(ks@[j])
                ==> state.actors.at(ks@[j]) == pre.actors.at(ks@[j])) by {
                if ks@[j].index == h.index {
                    pre.actors.lemma_index_unique(ks@[j], h);
                    assert(false);
                } else {
                    assert(mid.actors.valid(ks@[j]) == pre.actors.valid(ks@[j]));
                    if pre.actors.valid(ks@[j]) {
                        assert(mid.actors.at(ks@[j]) == pre.actors.at(ks@[j]));
                    }
                }
            }
        }
        i = i + 1;
    }
    proof {
        assert forall|h: Handle| old(state).actors.valid(h) implies (
        #[trigger] state.actors.valid(h) <==> !spec_age_expired(
            old(state).actors.at(h),
            *infos,
            dt as int,
        )) by {
            assert(ks@.contains(h));
            let j = choose|j: int| 0 <= j < ks@.len() && ks@[j] == h;
        }
        assert forall|h: Handle|
            old(state).actors.valid(h) && #[trigger] state.actors.valid(h) implies state.actors.at(
            h,
        ) == (Actor {
            state: ActorState {
                age: spec_aged(old(state).actors.at(h), dt as int) as i64,
                ..old(state).actors.at(h).state
            },
            ..old(state).actors.at(h)
        }) by {
            assert(ks@.contains(h));
            let j = choose|j: int| 0 <= j < ks@.len() && ks@[j] == h;
        }
    }
}


/// A cooldown decayed by `dt`, clamped at zero.
pub open spec fn spec_cooldown_decay(c: int, dt: int) -> int {
    if c - dt < 0 {
        0
    } else {
        c - dt
    }
}

/// The cooldown a weapon restarts with after a shot: one second's worth of
/// milliseconds divided by the rate of fire in milli-shots per second.
pub open spec fn spec_fire_cooldown(rof: int) -> int {
    1_000_000int / rof
}

/// Whether an actor fires this tick: it is alive, signals an attack
/// direction, its cooldown has decayed to zero, and its weapon has a
/// positive rate of fire.  A weapon with a zero rate of fire never fires:
/// its between-shot time, one second over the rate, is undefined there.
pub open spec fn spec_fires(a: Actor, infos: Infos, dt: int) -> bool {
    &&& a.state.health > 0
    &&& a.state.attack_dir != (Vec2 { x: 0i64, y: 0i64 })
    &&& spec_cooldown_decay(a.state.weapon_cooldown as int, dt) == 0
    &&& infos.weapons@[a.weapon as int].rate_of_fire > 0
}

/// The shooter's record after its attack update: a dead actor is untouched,
/// a live one has its cooldown decayed, or reset if it fires.
pub open spec fn spec_attack_actor(a: Actor, infos: Infos, dt: int) -> Actor {
    if a.state.health <= 0 {
        a
    } else {
        let dec = spec_cooldown_decay(a.state.weapon_cooldown as int, dt);
        let c = if spec_fires(a, infos, dt) {
            spec_fire_cooldown(infos.weapons@[a.weapon as int].rate_of_fire as int)
        } else {
            dec
        };
        Actor { state: ActorState { weapon_cooldown: c as i64, ..a.state }, ..a }
    }
}

/// Everything needed to spawn one projectile.
#[derive(Clone, Copy, PartialEq, Eq, Structural, Debug)]
pub struct SpawnReq {
    /// The projectile's actor description index.
    pub info: usize,
    /// Spawn position: the shooter's muzzle, held inside the world.
    pub pos: Vec2,
    /// Launch velocity.
    pub vel: Vec2,
    /// Launch facing.
    pub facing: Vec2,
    /// The shooter.
    pub owner: Handle,
}

/// The projectile a firing shooter asks for, given the sampled spread angle:
/// launched from the muzzle along the facing rotated by the spread, at the
/// projectile description's configured speed.  A weapon without a projectile
/// asks for none.
pub open spec fn spec_projectile_req(a: Actor, infos: Infos, s: int) -> Option<SpawnReq> {
    let w = infos.weapons@[a.weapon as int];
    match w.projectile {
        None => None,
        Some(pi) => {
            let dir = a.state.facing.spec_rotate(s);
            let mz = a.spec_muzzle_pos(infos);
            let pos = Vec2 {
                x: spec_clamp(mz.x as int, -POS_LIMIT as int, POS_LIMIT as int) as i64,
                y: spec_clamp(mz.y as int, -POS_LIMIT as int, POS_LIMIT as int) as i64,
            };
            let speed = infos.actors@[pi as int].velocity;
            Some(
                SpawnReq {
                    info: pi,
                    pos,
                    vel: dir.spec_scale_div(speed as int, SCALE as int),
                    facing: dir,
                    owner: a.handle,
                },
            )
        },
    }
}

/// Computes one actor's attack update: the new shooter record, and the
/// projectile to spawn if the shooter fired and its weapon launches one.
pub fn attack_step(a: &Actor, infos: &Infos, dt: i64, spread_sample: i64) -> (r: (
    Actor,
    Option<SpawnReq>,
))
    requires
        a.wf(*infos),
        infos.wf(),
        0 <= dt <= MAX_DT,
        -PI_MR <= spread_sample <= PI_MR,
    ensures
        r.0 == spec_attack_actor(*a, *infos, dt as int),
        r.0.wf(*infos),
        r.0.handle == a.handle,
        r.1 == if spec_fires(*a, *infos, dt as int) {
            spec_projectile_req(*a, *infos, spread_sample as int)
        } else {
            None::<SpawnReq>
        },
        match r.1 {
            Some(rq) => rq.info < infos.actors@.len() && rq.pos.in_bounds(POS_LIMIT as int)
                && rq.vel.in_bounds(VEL_LIMIT as int) && rq.facing.in_bounds(SCALE as int),
            None => true,
        },
{
    if !a.is_alive() {
        return (*a, None);
    }
    let dec = if a.state.weapon_cooldown < dt {
        0
    } else {
        a.state.weapon_cooldown - dt
    };
    let w = match infos.get_weapon(a.weapon) {
        Some(w) => w,
        None => {
            proof {
                assert(false);
            }
            vstd::pervasive::unreached()
        },
    };
    proof {
        assert(infos.weapons@[a.weapon as int].wf(
            infos.images@.len() as int,
            infos.actors@.len() as int,
        ));
    }
    let fires = !a.state.attack_dir.is_zero() && dec == 0 && w.rate_of_fire > 0;
    let new_cd: i64 = if fires {
        let q = (1_000_000u64 / (w.rate_of_fire as u64)) as i64;
        proof {
            let rof = w.rate_of_fire as int;
            vstd::arithmetic::div_mod::lemma_div_pos_is_pos(1_000_000, rof);
            vstd::arithmetic::div_mod::lemma_div_is_ordered_by_denominator(1_000_000, 1, rof);
            vstd::arithmetic::div_mod::lemma_div_basics_1(1_000_000);
        }
        q
    } else {
        dec
    };
    let mut shooter = *a;
    shooter.state.weapon_cooldown = new_cd;
    let req: Option<SpawnReq> = if fires {
        match w.projectile {
            Some(pi) => {
                proof {
                    assert(infos.actors@[pi as int].wf(
                        infos.images@.len() as int,
                        infos.weapons@.len() as int,
                    ));
                }
                let dir = a.state.facing.rotate(spread_sample);
                let mz = a.muzzle_pos(infos);
                let pos = Vec2 {
                    x: clamp_i64(mz.x, -POS_LIMIT, POS_LIMIT),
                    y: clamp_i64(mz.y, -POS_LIMIT, POS_LIMIT),
                };
                let speed = match infos.get_actor(pi) {
                    Some(p) => p.velocity,
                    None => {
                        proof {
                            assert(false);
                        }
                        vstd::pervasive::unreached()
                    },
                };
                let vel = dir.dir_scale(speed);
                Some(SpawnReq { info: pi, pos, vel, facing: dir, owner: a.handle })
            },
            None => None,
        }
    } else {
        None
    };
    (shooter, req)
}

/// `b` is exactly the projectile that shooter `hs` of `pre`, firing under
/// spread angle `s`, asked for.
pub open spec fn spec_projectile_matches(
    pre: State,
    infos: Infos,
    dt: int,
    b: Actor,
    hs: Handle,
    s: int,
) -> bool {
    &&& pre.actors.valid(hs)
    &&& -PI_MR <= s <= PI_MR
    &&& spec_fires(pre.actors.at(hs), infos, dt)
    &&& match spec_projectile_req(pre.actors.at(hs), infos, s) {
        Some(rq) => b == (Actor {
            handle: b.handle,
            info: rq.info,
            weapon: infos.actors@[rq.info as int].weapon,
            state: ActorState {
                pos: rq.pos,
                vel: rq.vel,
                facing: rq.facing,
                owner: rq.owner,
                ..ActorState::spec_initial(infos.actors@[rq.info as int].health)
            },
        }),
        None => false,
    }
}

/// A record that can only be a projectile some firing actor of `pre` asked
/// for this tick: its description, kinematics and owner all match one
/// shooter's request under some spread angle within a half turn.
pub open spec fn spec_is_projectile_of(pre: State, infos: Infos, dt: int, b: Actor) -> bool {
    exists|hs: Handle, s: int| spec_projectile_matches(pre, infos, dt, b, hs, s)
}

/// `hb` is a fresh record of `post` carrying exactly shooter `hs`'s
/// requested projectile under spread `sp`.
pub open spec fn spec_shot_witness(
    pre: State,
    post: State,
    infos: Infos,
    dt: int,
    hs: Handle,
    hb: Handle,
    sp: int,
) -> bool {
    &&& !pre.actors.valid(hb)
    &&& post.actors.valid(hb)
    &&& spec_projectile_matches(pre, infos, dt, post.actors.at(hb), hs, sp)
}

/// The fresh record `h2` of `cur` belongs to one of the first `bound`
/// shooters of `ks`: it matches that shooter's request and names it as its
/// owner.
pub open spec fn spec_owned_shot(
    pre: State,
    cur: State,
    infos: Infos,
    dt: int,
    ks: Seq<Handle>,
    bound: int,
    h2: Handle,
) -> bool {
    exists|j: int, sp: int|
        0 <= j < bound && spec_projectile_matches(pre, infos, dt, cur.actors.at(h2), ks[j], sp)
            && cur.actors.at(h2).state.owner == ks[j]
}

/// Shooter `hs` got its shot: some fresh record of `post` is exactly the
/// projectile it asked for, under some spread within a half turn.
pub open spec fn spec_shot_spawned(pre: State, post: State, infos: Infos, dt: int, hs: Handle) -> bool {
    exists|hb: Handle, sp: int| spec_shot_witness(pre, post, infos, dt, hs, hb, sp)
}

/// The attack pass: every living actor's cooldown decays and, if it fires,
/// resets; each shot whose weapon launches a projectile inserts exactly that
/// projectile.  Every pre-existing record is otherwise untouched, and every
/// new record is such a projectile.
pub fn attack(state: &mut State, infos: &Infos, dt: i64)
    requires
        old(state).wf(*infos),
        infos.wf(),
        0 <= dt <= MAX_DT,
    ensures
        final(state).wf(*infos),
        forall|h: Handle|
            old(state).actors.valid(h) ==> #[trigger] final(state).actors.valid(h) && final(state).actors.at(h) == spec_attack_actor(old(state).actors.at(h), *infos, dt as int),
        forall|h2: Handle|
            #[trigger] final(state).actors.valid(h2) && !old(state).actors.valid(h2)
                ==> spec_is_projectile_of(*old(state), *infos, dt as int, final(state).actors.at(h2)),
        forall|h: Handle|
            old(state).actors.valid(h) && spec_fires(old(state).actors.at(h), *infos, dt as int)
                && infos.weapons@[old(state).actors.at(h).weapon as int].projectile is Some
                ==> #[trigger] spec_shot_spawned(*old(state), *final(state), *infos, dt as int, h),
        forall|h2: Handle, h3: Handle|
            #[trigger] final(state).actors.valid(h2) && #[trigger] final(state).actors.valid(h3)
                && !old(state).actors.valid(h2) && !old(state).actors.valid(h3) && h2 != h3
                ==> final(state).actors.at(h2).state.owner != final(state).actors.at(h3).state.owner,
        final(state).spawner == old(state).spawner,
        final(state).me == old(state).me,
        final(state).contact_events == old(state).contact_events,
        final(state).round == old(state).round,
        final(state).game_state == old(state).game_state,
        final(state).bounds == old(state).bounds,
{
    let ks = state.actor_handles();
    let n = ks.len();
    let mut i: usize = 0;
    while i < n
        invariant
            i <= n,
            n == ks@.len(),
            infos.wf(),
            0 <= dt <= MAX_DT,
            state.wf(*infos),
            old(state).wf(*infos),
            ks@ == old(state).actors.live_handles(),
            forall|j: int| 0 <= j < ks@.len() ==> old(state).actors.valid(#[trigger] ks@[j]),
            forall|hh: Handle| old(state).actors.valid(hh) ==> #[trigger] ks@.contains(hh),
            forall|j: int, k: int| 0 <= j < k < ks@.len() ==> ks@[j].index < ks@[k].index,
            forall|h: Handle|
                old(state).actors.valid(h) ==> #[trigger] state.actors.valid(h),
            forall|j: int|
                0 <= j < i ==> #[trigger] state.actors.at(ks@[j]) == spec_attack_actor(
                    old(state).actors.at(ks@[j]),
                    *infos,
                    dt as int,
                ),
            forall|j: int|
                i <= j < ks@.len() ==> #[trigger] state.actors.at(ks@[j]) == old(state).actors.at(ks@[j]),
            forall|h2: Handle|
                #[trigger] state.actors.valid(h2) && !old(state).actors.valid(h2)
                    ==> spec_is_projectile_of(*old(state), *infos, dt as int, state.actors.at(h2)),
            forall|j: int|
                0 <= j < i && spec_fires(old(state).actors.at(ks@[j]), *infos, dt as int)
                    && infos.weapons@[old(state).actors.at(ks@[j]).weapon as int].projectile
                    is Some ==> #[trigger] spec_shot_spawned(
                    *old(state),
                    *state,
                    *infos,
                    dt as int,
                    ks@[j],
                ),
            forall|h2: Handle, h3: Handle|
                #[trigger] state.actors.valid(h2) && #[trigger] state.actors.valid(h3) && !old(
                    state,
                ).actors.valid(h2) && !old(state).actors.valid(h3) && h2 != h3
                    ==> state.actors.at(h2).state.owner != state.actors.at(h3).state.owner,
            forall|h2: Handle|
                #[trigger] state.actors.valid(h2) && !old(state).actors.valid(h2)
                    ==> spec_owned_shot(*old(state), *state, *infos, dt as int, ks@, i as int, h2),
            state.spawner == old(state).spawner,
            state.me == old(state).me,
            state.contact_events == old(state).contact_events,
            state.round == old(state).round,
            state.game_state == old(state).game_state,
            state.bounds == old(state).bounds,
        decreases n - i,
    {
        let h = ks[i];
        let a = match state.actor(h) {
            Some(a) => *a,
            None => {
                proof {
                    assert(false);
                }
                vstd::pervasive::unreached()
            },
        };
        let w = match infos.get_weapon(a.weapon) {
            Some(w) => w,
            None => {
                proof {
                    assert(false);
                }
                vstd::pervasive::unreached()
            },
        };
        proof {
            assert(infos.weapons@[a.weapon as int].wf(
                infos.images@.len() as int,
                infos.actors@.len() as int,
            ));
        }
        let raw = crate::rand::random_u32();
        let s = crate::rand::sample_spread(raw, w.spread);
        let (shooter, req) = attack_step(&a, infos, dt, s);
        let ghost pre = *state;
        let _ = state.set_actor(h, shooter);
        proof {
            assert forall|j: int|
                0 <= j < ks@.len() && j != i implies #[trigger] state.actors.at(ks@[j])
                == pre.actors.at(ks@[j]) by {
                if ks@[j].index == h.index {
                    pre.actors.lemma_index_unique(ks@[j], h);
                    assert(false);
                }
            }
            assert forall|h2: Handle|
                #[trigger] state.actors.valid(h2) && !old(state).actors.valid(h2) && h2 != h
                    implies state.actors.at(h2) == pre.actors.at(h2) by {
                if h2.index == h.index {
                    pre.actors.lemma_index_unique(h2, h);
                    assert(false);
                }
            }
        }
        match req {
            Some(rq) => {
                let ghost mid1 = *state;
                let hb = state.spawn_actor(infos, rq.info);
                let ghost mid2 = *state;
                let b = match state.actor(hb) {
                    Some(b) => *b,
                    None => {
                        proof {
                            assert(false);
                        }
                        vstd::pervasive::unreached()
                    },
                };
                let mut b2 = b;
                b2.state.pos = rq.pos;
                b2.state.vel = rq.vel;
                b2.state.facing = rq.facing;
                b2.state.owner = rq.owner;
                proof {
                    assert(b2.wf(*infos));
                }
                let _ = state.set_actor(hb, b2);
                proof {
                    assert(state.actors.at(hb) == b2);
                    assert(b == mid2.actors.at(hb));
                    assert(b2 == (Actor {
                        handle: hb,
                        info: rq.info,
                        weapon: infos.actors@[rq.info as int].weapon,
                        state: ActorState {
                            pos: rq.pos,
                            vel: rq.vel,
                            facing: rq.facing,
                            owner: rq.owner,
                            ..ActorState::spec_initial(infos.actors@[rq.info as int].health)
                        },
                    }));
                    assert forall|h2: Handle|
                        #[trigger] mid2.actors.valid(h2) && h2 != hb implies state.actors.at(h2)
                        == mid2.actors.at(h2) && mid2.actors.valid(h2) by {
                        if h2.index == hb.index {
                            mid2.actors.lemma_index_unique(h2, hb);
                            assert(false);
                        }
                    }
                    assert(spec_is_projectile_of(*old(state), *infos, dt as int, b2)) by {
                        assert(old(state).actors.at(h) == a);
                        assert(spec_fires(a, *infos, dt as int));
                        assert(spec_projectile_req(a, *infos, s as int) == Some(rq));
                        assert(spec_projectile_matches(
                            *old(state),
                            *infos,
                            dt as int,
                            b2,
                            h,
                            s as int,
                        ));
                    }
                    assert forall|h2: Handle|
                        #[trigger] state.actors.valid(h2) && !old(state).actors.valid(h2) implies
                        spec_is_projectile_of(*old(state), *infos, dt as int, state.actors.at(h2)) by {
                        if h2 == hb {
                        } else {
                            assert(mid2.actors.valid(h2));
                            assert(mid1.actors.valid(h2));
                            assert(state.actors.at(h2) == mid2.actors.at(h2));
                            assert(mid2.actors.at(h2) == mid1.actors.at(h2));
                        }
                    }
                    assert forall|j: int|
                        0 <= j < ks@.len() implies #[trigger] state.actors.at(ks@[j])
                        == mid1.actors.at(ks@[j]) by {
                        assert(ks@[j] != hb);
                        assert(mid2.actors.at(ks@[j]) == mid1.actors.at(ks@[j]));
                        if ks@[j].index == hb.index {
                            mid2.actors.lemma_index_unique(ks@[j], hb);
                            assert(false);
                        }
                    }
                    assert forall|h2: Handle|
                        #[trigger] pre.actors.valid(h2) && !old(state).actors.valid(h2) implies
                        state.actors.valid(h2) && state.actors.at(h2) == pre.actors.at(h2) by {
                        if h2.index == h.index {
                            pre.actors.lemma_index_unique(h2, h);
                            assert(false);
                        }
                        assert(mid1.actors.valid(h2));
                        assert(mid1.actors.at(h2) == pre.actors.at(h2));
                        assert(h2 != hb);
                        assert(mid2.actors.valid(h2));
                        assert(mid2.actors.at(h2) == mid1.actors.at(h2));
                        if h2.index == hb.index {
                            mid2.actors.lemma_index_unique(h2, hb);
                            assert(false);
                        }
                        assert(state.actors.at(h2) == mid2.actors.at(h2));
                    }
                    assert(!old(state).actors.valid(hb));
                    assert(a.handle == h);
                    assert(b2.state.owner == h);
                    assert forall|j: int|
                        0 <= j < i + 1 && spec_fires(old(state).actors.at(ks@[j]), *infos, dt as int)
                            && infos.weapons@[old(state).actors.at(ks@[j]).weapon as int].projectile
                            is Some implies spec_shot_spawned(
                        *old(state),
                        *state,
                        *infos,
                        dt as int,
                        ks@[j],
                    ) by {
                        if j == i {
                            assert(spec_shot_witness(
                                *old(state),
                                *state,
                                *infos,
                                dt as int,
                                h,
                                hb,
                                s as int,
                            ));
                        } else {
                            assert(spec_shot_spawned(*old(state), pre, *infos, dt as int, ks@[j]));
                            let (hbx, spx) = choose|hbx: Handle, spx: int|
                                spec_shot_witness(
                                    *old(state),
                                    pre,
                                    *infos,
                                    dt as int,
                                    ks@[j],
                                    hbx,
                                    spx,
                                );
                            assert(pre.actors.valid(hbx));
                            assert(state.actors.valid(hbx) && state.actors.at(hbx)
                                == pre.actors.at(hbx));
                            assert(spec_shot_witness(
                                *old(state),
                                *state,
                                *infos,
                                dt as int,
                                ks@[j],
                                hbx,
                                spx,
                            ));
                        }
                    }
                    assert forall|h2: Handle|
                        #[trigger] state.actors.valid(h2) && !old(state).actors.valid(h2) implies
                        spec_owned_shot(*old(state), *state, *infos, dt as int, ks@, i + 1, h2) by {
                        if h2 == hb {
                            assert(ks@[i as int] == h);
                            assert(spec_projectile_matches(
                                *old(state),
                                *infos,
                                dt as int,
                                state.actors.at(hb),
                                ks@[i as int],
                                s as int,
                            ));
                            assert(state.actors.at(hb).state.owner == ks@[i as int]);
                        } else {
                            assert(mid2.actors.valid(h2));
                            assert(mid1.actors.valid(h2));
                            assert(pre.actors.valid(h2));
                            assert(spec_owned_shot(
                                *old(state),
                                pre,
                                *infos,
                                dt as int,
                                ks@,
                                i as int,
                                h2,
                            ));
                            let (j2, sp2) = choose|j2: int, sp2: int|
                                0 <= j2 < i && spec_projectile_matches(
                                    *old(state),
                                    *infos,
                                    dt as int,
                                    pre.actors.at(h2),
                                    ks@[j2],
                                    sp2,
                                ) && pre.actors.at(h2).state.owner == ks@[j2];
                            assert(state.actors.at(h2) == pre.actors.at(h2));
                            assert(spec_projectile_matches(
                                *old(state),
                                *infos,
                                dt as int,
                                state.actors.at(h2),
                                ks@[j2],
                                sp2,
                            ));
                        }
                    }
                    assert forall|h2: Handle, h3: Handle|
                        #[trigger] state.actors.valid(h2) && #[trigger] state.actors.valid(h3)
                            && !old(state).actors.valid(h2) && !old(state).actors.valid(h3) && h2
                            != h3 implies state.actors.at(h2).state.owner != state.actors.at(
                        h3,
                    ).state.owner by {
                        if h2 == hb || h3 == hb {
                            let other = if h2 == hb {
                                h3
                            } else {
                                h2
                            };
                            assert(pre.actors.valid(other));
                            assert(spec_owned_shot(
                                *old(state),
                                pre,
                                *infos,
                                dt as int,
                                ks@,
                                i as int,
                                other,
                            ));
                            let (j2, sp2) = choose|j2: int, sp2: int|
                                0 <= j2 < i && spec_projectile_matches(
                                    *old(state),
                                    *infos,
                                    dt as int,
                                    pre.actors.at(other),
                                    ks@[j2],
                                    sp2,
                                ) && pre.actors.at(other).state.owner == ks@[j2];
                            assert(state.actors.at(other) == pre.actors.at(other));
                            assert(state.actors.at(other).state.owner == ks@[j2]);
                            assert(state.actors.at(hb).state.owner == ks@[i as int]);
                            assert(ks@[j2].index < ks@[i as int].index);
                        } else {
                            assert(pre.actors.valid(h2) && pre.actors.valid(h3));
                            assert(state.actors.at(h2) == pre.actors.at(h2));
                            assert(state.actors.at(h3) == pre.actors.at(h3));
                        }
                    }
                }
            },
            None => {
                proof {
                    assert forall|h2: Handle|
                        #[trigger] pre.actors.valid(h2) && !old(state).actors.valid(h2) implies
                        state.actors.valid(h2) && state.actors.at(h2) == pre.actors.at(h2) by {
                        if h2.index == h.index {
                            pre.actors.lemma_index_unique(h2, h);
                            assert(false);
                        }
                    }
                    assert forall|j: int|
                        0 <= j < i + 1 && spec_fires(old(state).actors.at(ks@[j]), *infos, dt as int)
                            && infos.weapons@[old(state).actors.at(ks@[j]).weapon as int].projectile
                            is Some implies spec_shot_spawned(
                        *old(state),
                        *state,
                        *infos,
                        dt as int,
                        ks@[j],
                    ) by {
                        if j == i {
                            assert(spec_fires(a, *infos, dt as int));
                            assert(infos.weapons@[a.weapon as int].projectile is Some);
                            assert(spec_projectile_req(a, *infos, s as int) is Some);
                            assert(false);
                        } else {
                            assert(spec_shot_spawned(*old(state), pre, *infos, dt as int, ks@[j]));
                            let (hbx, spx) = choose|hbx: Handle, spx: int|
                                spec_shot_witness(
                                    *old(state),
                                    pre,
                                    *infos,
                                    dt as int,
                                    ks@[j],
                                    hbx,
                                    spx,
                                );
                            assert(pre.actors.valid(hbx));
                            assert(state.actors.valid(hbx) && state.actors.at(hbx)
                                == pre.actors.at(hbx));
                            assert(spec_shot_witness(
                                *old(state),
                                *state,
                                *infos,
                                dt as int,
                                ks@[j],
                                hbx,
                                spx,
                            ));
                        }
                    }
                    assert forall|h2: Handle|
                        #[trigger] state.actors.valid(h2) && !old(state).actors.valid(h2) implies
                        spec_owned_shot(*old(state), *state, *infos, dt as int, ks@, i + 1, h2) by {
                        assert(pre.actors.valid(h2));
                        assert(spec_owned_shot(
                            *old(state),
                            pre,
                            *infos,
                            dt as int,
                            ks@,
                            i as int,
                            h2,
                        ));
                        let (j2, sp2) = choose|j2: int, sp2: int|
                            0 <= j2 < i && spec_projectile_matches(
                                *old(state),
                                *infos,
                                dt as int,
                                pre.actors.at(h2),
                                ks@[j2],
                                sp2,
                            ) && pre.actors.at(h2).state.owner == ks@[j2];
                        assert(state.actors.at(h2) == pre.actors.at(h2));
                        assert(spec_projectile_matches(
                            *old(state),
                            *infos,
                            dt as int,
                            state.actors.at(h2),
                            ks@[j2],
                            sp2,
                        ));
                    }
                    assert forall|h2: Handle, h3: Handle|
                        #[trigger] state.actors.valid(h2) && #[trigger] state.actors.valid(h3)
                            && !old(state).actors.valid(h2) && !old(state).actors.valid(h3) && h2
                            != h3 implies state.actors.at(h2).state.owner != state.actors.at(
                        h3,
                    ).state.owner by {
                        assert(pre.actors.valid(h2) && pre.actors.valid(h3));
                        assert(state.actors.at(h2) == pre.actors.at(h2));
                        assert(state.actors.at(h3) == pre.actors.at(h3));
                    }
                }
            },
        }
        proof {
            assert forall|j: int|
                i + 1 <= j < ks@.len() implies #[trigger] state.actors.at(ks@[j]) == old(state).actors.at(ks@[j]) by {
                assert(pre.actors.at(ks@[j]) == old(state).actors.at(ks@[j]));
            }
            assert(state.actors.at(ks@[i as int]) == spec_attack_actor(
                old(state).actors.at(ks@[i as int]),
                *infos,
                dt as int,
            ));
        }
        i = i + 1;
    }
    proof {
        assert forall|h: Handle| old(state).actors.valid(h) implies #[trigger] state.actors.valid(
            h,
        ) && state.actors.at(h) == spec_attack_actor(old(state).actors.at(h), *infos, dt as int) by {
            assert(ks@.contains(h));
            let j = choose|j: int| 0 <= j < ks@.len() && ks@[j] == h;
        }
        assert forall|h: Handle|
            old(state).actors.valid(h) && spec_fires(old(state).actors.at(h), *infos, dt as int)
                && infos.weapons@[old(state).actors.at(h).weapon as int].projectile is Some implies
            #[trigger] spec_shot_spawned(*old(state), *state, *infos, dt as int, h) by {
            assert(ks@.contains(h));
            let j = choose|j: int| 0 <= j < ks@.len() && ks@[j] == h;
            assert(spec_shot_spawned(*old(state), *state, *infos, dt as int, ks@[j]));
        }
    }
}


/// An actor after taking one hit: health drops by the damage, saturating at
/// the engine's health floor (never clamped to zero), and the pain flash
/// restarts.
pub open spec fn spec_damaged(a: Actor, dmg: int) -> Actor {
    let h2 = if a.state.health - dmg < HEALTH_FLOOR {
        HEALTH_FLOOR as int
    } else {
        a.state.health - dmg
    };
    Actor {
        state: ActorState {
            health: h2 as i64,
            pain_timer: Timer { timer: 0, end_time: a.state.pain_timer.end_time },
            ..a.state
        },
        ..a
    }
}

/// Damage only ever lowers health and clamps nowhere but at the engine's
/// stated floor: a hit lands exactly `health - dmg`, saturating far below
/// zero, and is never silently pulled up to zero — death stays visible
/// until a consumer reads it.
pub proof fn lemma_damage_never_hides_death(a: Actor, dmg: int)
    requires
        0 <= dmg,
        HEALTH_FLOOR <= a.state.health,
    ensures
        spec_damaged(a, dmg).state.health <= a.state.health,
        a.state.health - dmg >= HEALTH_FLOOR ==> spec_damaged(a, dmg).state.health
            == a.state.health - dmg,
        a.state.health - dmg < HEALTH_FLOOR ==> spec_damaged(a, dmg).state.health == HEALTH_FLOOR,
{
}

/// Two hits in a row are one hit for the summed damage.
pub proof fn lemma_damaged_compose(a: Actor, d1: int, d2: int)
    requires
        0 <= d1,
        0 <= d2,
        HEALTH_FLOOR <= a.state.health,
    ensures
        spec_damaged(spec_damaged(a, d1), d2) == spec_damaged(a, d1 + d2),
{
}

/// Computes an actor's record after one hit.
pub fn apply_damage(a: &Actor, dmg: i64) -> (r: Actor)
    requires
        a.state.wf(),
        0 <= dmg <= 1_000_000_000,
    ensures
        r == spec_damaged(*a, dmg as int),
        r.state.wf(),
        r.handle == a.handle,
{
    let h2 = if a.state.health - dmg < HEALTH_FLOOR {
        HEALTH_FLOOR
    } else {
        a.state.health - dmg
    };
    let mut r = *a;
    r.state.health = h2;
    r.state.pain_timer = Timer::start(a.state.pain_timer.end_time);
    r
}

/// A surviving record either is untouched or took some accumulated damage.
pub open spec fn spec_untouched_or_damaged(oa: Actor, na: Actor) -> bool {
    na == oa || exists|d: int| 0 <= d && na == spec_damaged(oa, d)
}

/// The mover of a contact event.
pub open spec fn ev_actor(ev: ContactEvent) -> Handle {
    match ev {
        ContactEvent::Actor { actor, other_actor } => actor,
    }
}

/// The struck actor of a contact event.
pub open spec fn ev_other(ev: ContactEvent) -> Handle {
    match ev {
        ContactEvent::Actor { actor, other_actor } => other_actor,
    }
}

/// Some event before `bound` names `h` as its mover.
pub open spec fn spec_mover_before(evs: Seq<ContactEvent>, h: Handle, bound: int) -> bool {
    exists|k: int| 0 <= k < bound && ev_actor(#[trigger] evs[k]) == h
}

/// Event `k` is the first event of a live missile: its mover resolves in
/// `pre` as a missile-flagged record, and no earlier event already named
/// that mover (which would have despawned it).
pub open spec fn spec_missile_first_event(
    pre: State,
    infos: Infos,
    evs: Seq<ContactEvent>,
    k: int,
) -> bool {
    &&& 0 <= k < evs.len()
    &&& pre.actors.valid(ev_actor(evs[k]))
    &&& infos.actors@[pre.actors.at(ev_actor(evs[k])).info as int].missile
    &&& !spec_mover_before(evs, ev_actor(evs[k]), k)
}

/// Event `k` lands one damage hit on `t`: it is a live missile's first
/// event, it strikes `t`, and `t` still resolves then (it was not itself a
/// missile exploded by an earlier event) and is shootable.
pub open spec fn spec_hit(
    pre: State,
    infos: Infos,
    evs: Seq<ContactEvent>,
    t: Handle,
    k: int,
) -> bool {
    &&& spec_missile_first_event(pre, infos, evs, k)
    &&& ev_other(evs[k]) == t
    &&& pre.actors.valid(t)
    &&& infos.actors@[pre.actors.at(t).info as int].shootable
    &&& !(infos.actors@[pre.actors.at(t).info as int].missile && spec_mover_before(evs, t, k))
}

/// Event `k` is the one and only hit on `t`.
pub open spec fn spec_sole_hit(
    pre: State,
    infos: Infos,
    evs: Seq<ContactEvent>,
    t: Handle,
    k: int,
) -> bool {
    &&& spec_hit(pre, infos, evs, t, k)
    &&& forall|j: int| j != k ==> !#[trigger] spec_hit(pre, infos, evs, t, j)
}

/// `t` ends up hit exactly once by event `k`'s missile: its final record is
/// the old one after one damage draw from that missile's direct range.  The
/// draw is random, so only its range is pinned.
pub open spec fn spec_took_sole_hit(
    pre: State,
    post: State,
    infos: Infos,
    evs: Seq<ContactEvent>,
    t: Handle,
    k: int,
) -> bool {
    exists|d: int|
        {
            let dr = infos.actors@[pre.actors.at(ev_actor(evs[k])).info as int].missile_direct_damage;
            &&& dr.0 <= d <= dr.1
            &&& #[trigger] spec_damaged(pre.actors.at(t), d) == post.actors.at(t)
        }
}

/// The burst direction of spatter particle `j` of eight: evenly spaced
/// angles around the full turn.
pub open spec fn spec_burst_angle(j: int) -> int {
    (j * (TWO_PI_MR as int)) / 8
}

/// The launch velocity of spatter particle `j`: the fixed-point unit vector
/// of its burst angle at two units per second.
pub open spec fn spec_burst_vel(j: int) -> Vec2 {
    (Vec2 {
        x: crate::fixed::cos_full_mr(spec_burst_angle(j)) as i64,
        y: crate::fixed::sin_full_mr(spec_burst_angle(j)) as i64,
    }).spec_scale_div(2000, SCALE as int)
}

/// Some fresh record of `post` is spatter particle `j` of the burst of
/// event `k`'s missile: a record of the description named `spatter`,
/// standing at the impact point with the burst velocity.
pub open spec fn spec_spatter_spawned(
    pre: State,
    post: State,
    infos: Infos,
    evs: Seq<ContactEvent>,
    k: int,
    j: int,
) -> bool {
    exists|hs: Handle, si: int| spec_spatter_witness(pre, post, infos, evs, k, j, hs, si)
}

/// `hs` is the fresh record carrying burst particle `j` of event `k`.
pub open spec fn spec_spatter_witness(
    pre: State,
    post: State,
    infos: Infos,
    evs: Seq<ContactEvent>,
    k: int,
    j: int,
    hs: Handle,
    si: int,
) -> bool {
    &&& !pre.actors.valid(hs)
    &&& post.actors.valid(hs)
    &&& 0 <= si < infos.actors@.len()
    &&& infos.actors@[si].name@ == "spatter"@
    &&& post.actors.at(hs) == (Actor {
        handle: hs,
        info: si as usize,
        weapon: infos.actors@[si].weapon,
        state: ActorState {
            pos: pre.actors.at(ev_actor(evs[k])).state.pos,
            vel: spec_burst_vel(j),
            ..ActorState::spec_initial(infos.actors@[si].health)
        },
    })
}

/// An entry of the hit list accounts for event `k`: same victim, damage
/// within the mover's direct range.
pub open spec fn spec_hit_recorded(
    pre: State,
    infos: Infos,
    evs: Seq<ContactEvent>,
    hits: Seq<(Handle, i64)>,
    hks: Seq<int>,
    k: int,
) -> bool {
    exists|idx: int|
        {
            let dr = infos.actors@[pre.actors.at(ev_actor(evs[k])).info as int].missile_direct_damage;
            &&& 0 <= idx < hits.len()
            &&& idx < hks.len()
            &&& #[trigger] hks[idx] == k
            &&& hits[idx].0 == ev_other(evs[k])
            &&& dr.0 <= hits[idx].1 <= dr.1
        }
}

/// No hit-list entry names `t` as its victim.
pub open spec fn spec_no_entry(hits: Seq<(Handle, i64)>, t: Handle) -> bool {
    forall|idx: int| 0 <= idx < hits.len() ==> (#[trigger] hits[idx]).0 != t
}

/// `idx0` is the one and only hit-list entry naming `t`.
pub open spec fn spec_sole_entry(hits: Seq<(Handle, i64)>, t: Handle, idx0: int) -> bool {
    &&& 0 <= idx0 < hits.len()
    &&& hits[idx0].0 == t
    &&& forall|idx: int| 0 <= idx < hits.len() && idx != idx0 ==> (#[trigger] hits[idx]).0 != t
}

/// The missile-contact pass.  Every contact event whose mover still
/// resolves as a missile despawns that missile, spawns its radial burst of
/// eight spatter particles at the impact point, and — when the struck actor
/// resolves and is shootable — owes it one damage draw from the missile's
/// direct range.  All owed damage is applied afterwards, restarting the
/// victims' pain flashes.  Only missiles despawn, an actor no event hits is
/// untouched, an actor hit exactly once takes exactly that one draw, and
/// every new record is a spatter particle.  A stale handle in an event is
/// skipped silently.
#[verifier::rlimit(100)]
pub fn missile_contact(state: &mut State, infos: &Infos)
    requires
        old(state).wf(*infos),
        infos.wf(),
        infos.has_actor_named("spatter"@),
    ensures
        final(state).wf(*infos),
        forall|h: Handle|
            old(state).actors.valid(h) && !(#[trigger] final(state).actors.valid(h))
                ==> infos.actors@[old(state).actors.at(h).info as int].missile,
        forall|h: Handle|
            old(state).actors.valid(h) && #[trigger] final(state).actors.valid(h)
                ==> spec_untouched_or_damaged(old(state).actors.at(h), final(state).actors.at(h)),
        forall|h2: Handle|
            #[trigger] final(state).actors.valid(h2) && !old(state).actors.valid(h2)
                ==> infos.actors@[final(state).actors.at(h2).info as int].name@ == "spatter"@,
        forall|k: int|
            0 <= k < old(state).contact_events@.len() && old(state).actors.valid(
                ev_actor(#[trigger] old(state).contact_events@[k]),
            ) && infos.actors@[old(state).actors.at(
                ev_actor(old(state).contact_events@[k]),
            ).info as int].missile ==> !final(state).actors.valid(
                ev_actor(old(state).contact_events@[k]),
            ),
        forall|t: Handle|
            old(state).actors.valid(t) && !infos.actors@[old(state).actors.at(t).info as int].missile
                && #[trigger] spec_unhit_by(*old(state), *infos, old(state).contact_events@, t)
                ==> final(state).actors.valid(t) && final(state).actors.at(t) == old(
                state,
            ).actors.at(t),
        forall|t: Handle, k: int|
            old(state).actors.valid(t) && !infos.actors@[old(state).actors.at(t).info as int].missile
                && spec_sole_hit(*old(state), *infos, old(state).contact_events@, t, k)
                ==> #[trigger] spec_took_sole_hit(
                *old(state),
                *final(state),
                *infos,
                old(state).contact_events@,
                t,
                k,
            ),
        forall|k: int, j: int|
            spec_missile_first_event(*old(state), *infos, old(state).contact_events@, k) && 0 <= j
                < 8 ==> #[trigger] spec_spatter_spawned(
                *old(state),
                *final(state),
                *infos,
                old(state).contact_events@,
                k,
                j,
            ),
        final(state).spawner == old(state).spawner,
        final(state).me == old(state).me,
        final(state).contact_events == old(state).contact_events,
        final(state).round == old(state).round,
        final(state).game_state == old(state).game_state,
        final(state).bounds == old(state).bounds,
{
    let spatter_idx = match infos.find_actor("spatter") {
        Some(i) => i,
        None => {
            proof {
                assert(false);
            }
            vstd::pervasive::unreached()
        },
    };
    let ks0 = state.actor_handles();
    let mut evs: Vec<ContactEvent> = Vec::new();
    let ne = state.contact_events.len();
    let mut i: usize = 0;
    while i < ne
        invariant
            i <= ne,
            ne == state.contact_events@.len(),
            evs@ == state.contact_events@.subrange(0, i as int),
        decreases ne - i,
    {
        let ev = state.contact_events[i];
        evs.push(ev);
        proof {
            assert(evs@ =~= state.contact_events@.subrange(0, i + 1));
        }
        i = i + 1;
    }
    proof {
        assert(evs@ =~= old(state).contact_events@);
    }
    let mut hits: Vec<(Handle, i64)> = Vec::new();
    let ghost mut hit_ks: Seq<int> = Seq::empty();
    let nev = evs.len();
    let mut i: usize = 0;
    while i < nev
        invariant
            i <= nev,
            nev == evs@.len(),
            evs@ == old(state).contact_events@,
            ks0@ == old(state).actors.live_handles(),
            forall|j: int| 0 <= j < ks0@.len() ==> old(state).actors.valid(#[trigger] ks0@[j]),
            forall|hh: Handle| old(state).actors.valid(hh) ==> #[trigger] ks0@.contains(hh),
            infos.wf(),
            state.wf(*infos),
            old(state).wf(*infos),
            forall|i2: int|
                #[trigger] state.actors.slot_gen(i2) >= old(state).actors.slot_gen(i2),
            spatter_idx < infos.actors@.len(),
            infos.actors@[spatter_idx as int].name@ == "spatter"@,
            forall|k: int| 0 <= k < hits@.len() ==> 0 <= (#[trigger] hits@[k]).1 <= 1_000_000_000,
            forall|h: Handle|
                old(state).actors.valid(h) && !(#[trigger] state.actors.valid(h))
                    ==> infos.actors@[old(state).actors.at(h).info as int].missile,
            forall|h: Handle|
                old(state).actors.valid(h) && #[trigger] state.actors.valid(h)
                    ==> state.actors.at(h) == old(state).actors.at(h),
            forall|h2: Handle|
                #[trigger] state.actors.valid(h2) && !old(state).actors.valid(h2)
                    ==> infos.actors@[state.actors.at(h2).info as int].name@ == "spatter"@,
            forall|h: Handle|
                old(state).actors.valid(h) ==> (#[trigger] state.actors.valid(h) <==> !(
                infos.actors@[old(state).actors.at(h).info as int].missile && spec_mover_before(
                    evs@,
                    h,
                    i as int,
                ))),
            forall|k2: int, j: int|
                0 <= k2 < i && spec_missile_first_event(*old(state), *infos, evs@, k2) && 0 <= j < 8
                    ==> #[trigger] spec_spatter_spawned(
                    *old(state),
                    *state,
                    *infos,
                    evs@,
                    k2,
                    j,
                ),
            hit_ks.len() == hits@.len(),
            forall|idx: int|
                0 <= idx < hits@.len() ==> 0 <= #[trigger] hit_ks[idx] < i && spec_hit(
                    *old(state),
                    *infos,
                    evs@,
                    hits@[idx].0,
                    hit_ks[idx],
                ) && {
                    let dr = infos.actors@[old(state).actors.at(
                        ev_actor(evs@[hit_ks[idx]]),
                    ).info as int].missile_direct_damage;
                    dr.0 <= hits@[idx].1 <= dr.1
                },
            forall|idx1: int, idx2: int|
                0 <= idx1 < idx2 < hits@.len() ==> #[trigger] hit_ks[idx1] < #[trigger] hit_ks[idx2],
            forall|k2: int|
                0 <= k2 < i && spec_hit(*old(state), *infos, evs@, ev_other(evs@[k2]), k2)
                    ==> #[trigger] spec_hit_recorded(
                    *old(state),
                    *infos,
                    evs@,
                    hits@,
                    hit_ks,
                    k2,
                ),
            state.spawner == old(state).spawner,
            state.me == old(state).me,
            state.contact_events == old(state).contact_events,
            state.round == old(state).round,
            state.game_state == old(state).game_state,
            state.bounds == old(state).bounds,
        decreases nev - i,
    {
        let ev = evs[i];
        let ContactEvent::Actor { actor, other_actor } = ev;
        let mover_known = crate::arena::contains_handle(&ks0, actor);
        let missile_data: Option<(Vec2, (i64, i64))> = if mover_known {
            match state.actor(actor) {
                Some(a) => {
                    let ai = a.actor_info(infos);
                    if ai.missile {
                        Some((a.state.pos, ai.missile_direct_damage))
                    } else {
                        None
                    }
                },
                None => None,
            }
        } else {
            None
        };
        match missile_data {
            Some((pos, dmg_range)) => {
                proof {
                    assert(old(state).actors.valid(actor));
                    assert(state.actors.at(actor) == old(state).actors.at(actor));
                    assert(!spec_mover_before(evs@, actor, i as int));
                    assert(spec_missile_first_event(*old(state), *infos, evs@, i as int));
                }
                let victim_known = crate::arena::contains_handle(&ks0, other_actor);
                let shootable = if victim_known {
                    match state.actor(other_actor) {
                        Some(o) => o.actor_info(infos).shootable,
                        None => false,
                    }
                } else {
                    false
                };
                let ghost hits_pre = hits@;
                let ghost hit_ks_pre = hit_ks;
                if shootable {
                    proof {
                        let oa = state.actors.at(actor);
                        assert(infos.actors@[oa.info as int].wf(
                            infos.images@.len() as int,
                            infos.weapons@.len() as int,
                        ));
                        assert(old(state).actors.valid(other_actor));
                        assert(spec_hit(*old(state), *infos, evs@, other_actor, i as int)) by {
                            if infos.actors@[old(state).actors.at(other_actor).info as int].missile
                                && spec_mover_before(evs@, other_actor, i as int) {
                                assert(!state.actors.valid(other_actor));
                            }
                        }
                    }
                    let raw = crate::rand::random_u32();
                    let dmg = crate::rand::sample_damage(raw, dmg_range.0, dmg_range.1);
                    hits.push((other_actor, dmg));
                    proof {
                        hit_ks = hit_ks.push(i as int);
                    }
                }
                proof {
                    assert forall|idx: int| 0 <= idx < hits@.len() implies 0 <= #[trigger] hit_ks[idx]
                        < i + 1 && spec_hit(*old(state), *infos, evs@, hits@[idx].0, hit_ks[idx])
                        && {
                        let dr = infos.actors@[old(state).actors.at(
                            ev_actor(evs@[hit_ks[idx]]),
                        ).info as int].missile_direct_damage;
                        dr.0 <= hits@[idx].1 <= dr.1
                    } by {
                        if idx < hits_pre.len() {
                            assert(hits@[idx] == hits_pre[idx]);
                            assert(hit_ks[idx] == hit_ks_pre[idx]);
                        }
                    }
                    assert forall|k2: int|
                        0 <= k2 < i + 1 && spec_hit(*old(state), *infos, evs@, ev_other(evs@[k2]), k2)
                        implies #[trigger] spec_hit_recorded(
                        *old(state),
                        *infos,
                        evs@,
                        hits@,
                        hit_ks,
                        k2,
                    ) by {
                        if k2 < i {
                            assert(spec_hit_recorded(
                                *old(state),
                                *infos,
                                evs@,
                                hits_pre,
                                hit_ks_pre,
                                k2,
                            ));
                            let idx = choose|idx: int|
                                {
                                    let dr = infos.actors@[old(state).actors.at(
                                        ev_actor(evs@[k2]),
                                    ).info as int].missile_direct_damage;
                                    &&& 0 <= idx < hits_pre.len()
                                    &&& idx < hit_ks_pre.len()
                                    &&& #[trigger] hit_ks_pre[idx] == k2
                                    &&& hits_pre[idx].0 == ev_other(evs@[k2])
                                    &&& dr.0 <= hits_pre[idx].1 <= dr.1
                                };
                            assert(hits@[idx] == hits_pre[idx] && hit_ks[idx] == hit_ks_pre[idx]);
                        } else {
                            assert(k2 == i);
                            assert(ev_other(evs@[k2]) == other_actor);
                            assert(old(state).actors.valid(other_actor));
                            if !shootable {
                                if infos.actors@[old(state).actors.at(
                                    other_actor,
                                ).info as int].missile && spec_mover_before(
                                    evs@,
                                    other_actor,
                                    i as int,
                                ) {
                                    assert(!spec_hit(
                                        *old(state),
                                        *infos,
                                        evs@,
                                        other_actor,
                                        i as int,
                                    ));
                                    assert(false);
                                } else {
                                    assert(state.actors.valid(other_actor));
                                    assert(state.actors.at(other_actor) == old(
                                        state,
                                    ).actors.at(other_actor));
                                    assert(!infos.actors@[old(state).actors.at(
                                        other_actor,
                                    ).info as int].shootable);
                                    assert(false);
                                }
                            } else {
                                assert(hits@.len() == hits_pre.len() + 1);
                                assert(hit_ks[hits@.len() - 1] == i as int);
                                assert(hits@[hits@.len() - 1].0 == other_actor);
                            }
                        }
                    }
                }
                let ghost pre = *state;
                state.despawn_actor(actor);
                proof {
                    assert(pre.actors.valid(actor));
                    assert forall|h: Handle|
                        h.index != actor.index implies #[trigger] state.actors.valid(h)
                        == pre.actors.valid(h) && (pre.actors.valid(h) ==> state.actors.at(h)
                        == pre.actors.at(h)) by {}
                    assert forall|h: Handle|
                        old(state).actors.valid(h) && !(#[trigger] state.actors.valid(h)) implies
                        infos.actors@[old(state).actors.at(h).info as int].missile by {
                        if h.index == actor.index {
                            if pre.actors.valid(h) {
                                pre.actors.lemma_index_unique(h, actor);
                            }
                        }
                    }
                    assert forall|h: Handle|
                        old(state).actors.valid(h) implies (#[trigger] state.actors.valid(h) <==> !(
                        infos.actors@[old(state).actors.at(h).info as int].missile
                            && spec_mover_before(evs@, h, i + 1))) by {
                        if h == actor {
                            assert(!state.actors.valid(h));
                            assert(ev_actor(evs@[i as int]) == h);
                            assert(spec_mover_before(evs@, h, i + 1));
                        } else {
                            assert(spec_mover_before(evs@, h, i + 1) == spec_mover_before(
                                evs@,
                                h,
                                i as int,
                            )) by {
                                if spec_mover_before(evs@, h, i + 1) {
                                    let kx = choose|kx: int|
                                        0 <= kx < i + 1 && ev_actor(#[trigger] evs@[kx]) == h;
                                    assert(kx < i);
                                }
                            }
                            if h.index == actor.index {
                                if pre.actors.valid(h) {
                                    pre.actors.lemma_index_unique(h, actor);
                                    assert(false);
                                }
                            } else {
                                assert(state.actors.valid(h) == pre.actors.valid(h));
                            }
                        }
                    }
                    assert forall|k2: int, j: int|
                        0 <= k2 < i && spec_missile_first_event(*old(state), *infos, evs@, k2) && 0
                        <= j < 8 implies spec_spatter_spawned(
                        *old(state),
                        *state,
                        *infos,
                        evs@,
                        k2,
                        j,
                    ) by {
                        assert(spec_spatter_spawned(*old(state), pre, *infos, evs@, k2, j));
                        let (hs2, si2) = choose|hs2: Handle, si2: int|
                            spec_spatter_witness(*old(state), pre, *infos, evs@, k2, j, hs2, si2);
                        if hs2.index == actor.index {
                            pre.actors.lemma_index_unique(hs2, actor);
                            assert(false);
                        }
                        assert(spec_spatter_witness(
                            *old(state),
                            *state,
                            *infos,
                            evs@,
                            k2,
                            j,
                            hs2,
                            si2,
                        ));
                    }
                }
                let mut k: usize = 0;
                while k < 8
                    invariant
                        k <= 8,
                        i < nev,
                        nev == evs@.len(),
                        evs@ == old(state).contact_events@,
                        infos.wf(),
                        state.wf(*infos),
                        old(state).wf(*infos),
                        forall|i2: int|
                            #[trigger] state.actors.slot_gen(i2) >= old(state).actors.slot_gen(i2),
                        spatter_idx < infos.actors@.len(),
                        infos.actors@[spatter_idx as int].name@ == "spatter"@,
                        pos.in_bounds(POS_LIMIT as int),
                        pos == old(state).actors.at(ev_actor(evs@[i as int])).state.pos,
                        spec_missile_first_event(*old(state), *infos, evs@, i as int),
                        forall|h: Handle|
                            old(state).actors.valid(h) && !(#[trigger] state.actors.valid(h))
                                ==> infos.actors@[old(state).actors.at(h).info as int].missile,
                        forall|h: Handle|
                            old(state).actors.valid(h) && #[trigger] state.actors.valid(h)
                                ==> state.actors.at(h) == old(state).actors.at(h),
                        forall|h2: Handle|
                            #[trigger] state.actors.valid(h2) && !old(state).actors.valid(h2)
                                ==> infos.actors@[state.actors.at(h2).info as int].name@
                                == "spatter"@,
                        forall|h: Handle|
                            old(state).actors.valid(h) ==> (#[trigger] state.actors.valid(h) <==> !(
                            infos.actors@[old(state).actors.at(h).info as int].missile
                                && spec_mover_before(evs@, h, i + 1))),
                        forall|k2: int, j: int|
                            0 <= k2 < i && spec_missile_first_event(*old(state), *infos, evs@, k2)
                                && 0 <= j < 8 ==> #[trigger] spec_spatter_spawned(
                                *old(state),
                                *state,
                                *infos,
                                evs@,
                                k2,
                                j,
                            ),
                        forall|j: int|
                            0 <= j < k ==> #[trigger] spec_spatter_spawned(
                                *old(state),
                                *state,
                                *infos,
                                evs@,
                                i as int,
                                j,
                            ),
                        state.spawner == old(state).spawner,
                        state.me == old(state).me,
                        state.contact_events == old(state).contact_events,
                        state.round == old(state).round,
                        state.game_state == old(state).game_state,
                        state.bounds == old(state).bounds,
                    decreases 8 - k,
                {
                    let ang = (((k as i64) * TWO_PI_MR) as u64 / 8u64) as i64;
                    proof {
                        vstd::arithmetic::div_mod::lemma_div_pos_is_pos(
                            (k as int) * (TWO_PI_MR as int),
                            8,
                        );
                        vstd::arithmetic::div_mod::lemma_div_is_ordered(
                            (k as int) * (TWO_PI_MR as int),
                            7 * (TWO_PI_MR as int),
                            8,
                        );
                        assert(ang == spec_burst_angle(k as int));
                    }
                    let dir = Vec2 { x: crate::fixed::cos_mr(ang), y: crate::fixed::sin_mr(ang) };
                    let vel = dir.dir_scale(2000);
                    proof {
                        assert(vel == spec_burst_vel(k as int));
                    }
                    let ghost pre2 = *state;
                    let hs = state.spawn_actor(infos, spatter_idx);
                    let ghost mid = *state;
                    let sp = match state.actor(hs) {
                        Some(sp) => *sp,
                        None => {
                            proof {
                                assert(false);
                            }
                            vstd::pervasive::unreached()
                        },
                    };
                    let mut sp2 = sp;
                    sp2.state.pos = pos;
                    sp2.state.vel = vel;
                    proof {
                        assert(sp2.wf(*infos));
                    }
                    let _ = state.set_actor(hs, sp2);
                    proof {
                        assert forall|h2: Handle|
                            #[trigger] mid.actors.valid(h2) && h2 != hs implies state.actors.at(h2)
                            == mid.actors.at(h2) by {
                            if h2.index == hs.index {
                                mid.actors.lemma_index_unique(h2, hs);
                                assert(false);
                            }
                        }
                        assert(state.actors.at(hs) == sp2);
                        assert(infos.actors@[sp2.info as int].name@ == "spatter"@);
                        assert(!old(state).actors.valid(hs)) by {
                            if old(state).actors.valid(hs) {
                                old(state).actors.lemma_valid_gen(hs);
                                mid.actors.lemma_valid_gen(hs);
                                assert(mid.actors.slot_gen(hs.index as int) > pre2.actors.slot_gen(
                                    hs.index as int,
                                ));
                                assert(pre2.actors.slot_gen(hs.index as int) >= old(
                                    state,
                                ).actors.slot_gen(hs.index as int));
                                assert(false);
                            }
                        }
                        assert forall|h: Handle|
                            old(state).actors.valid(h) && #[trigger] state.actors.valid(h) implies
                            state.actors.at(h) == old(state).actors.at(h) by {
                            assert(h != hs);
                            if h.index == hs.index {
                                mid.actors.lemma_index_unique(h, hs);
                                assert(false);
                            }
                            assert(mid.actors.valid(h));
                            assert(pre2.actors.valid(h));
                            assert(mid.actors.at(h) == pre2.actors.at(h));
                        }
                        assert forall|h2: Handle|
                            #[trigger] state.actors.valid(h2) && !old(state).actors.valid(h2)
                            implies infos.actors@[state.actors.at(h2).info as int].name@
                            == "spatter"@ by {
                            if h2 == hs {
                            } else {
                                if h2.index == hs.index {
                                    mid.actors.lemma_index_unique(h2, hs);
                                    assert(false);
                                }
                                assert(mid.actors.valid(h2));
                                assert(pre2.actors.valid(h2));
                                assert(state.actors.at(h2) == pre2.actors.at(h2));
                            }
                        }
                        assert forall|h2: Handle|
                            #[trigger] pre2.actors.valid(h2) && !old(state).actors.valid(h2)
                            implies state.actors.valid(h2) && state.actors.at(h2)
                            == pre2.actors.at(h2) by {
                            assert(h2 != hs);
                            assert(mid.actors.valid(h2));
                            if h2.index == hs.index {
                                mid.actors.lemma_index_unique(h2, hs);
                                assert(false);
                            }
                            assert(mid.actors.at(h2) == pre2.actors.at(h2));
                        }
                        assert(spec_spatter_witness(
                            *old(state),
                            *state,
                            *infos,
                            evs@,
                            i as int,
                            k as int,
                            hs,
                            spatter_idx as int,
                        ));
                        assert forall|k2: int, j: int|
                            0 <= k2 < i && spec_missile_first_event(*old(state), *infos, evs@, k2)
                                && 0 <= j < 8 implies spec_spatter_spawned(
                            *old(state),
                            *state,
                            *infos,
                            evs@,
                            k2,
                            j,
                        ) by {
                            assert(spec_spatter_spawned(*old(state), pre2, *infos, evs@, k2, j));
                            let (hs2, si2) = choose|hs2: Handle, si2: int|
                                spec_spatter_witness(
                                    *old(state),
                                    pre2,
                                    *infos,
                                    evs@,
                                    k2,
                                    j,
                                    hs2,
                                    si2,
                                );
                            assert(state.actors.valid(hs2) && state.actors.at(hs2)
                                == pre2.actors.at(hs2));
                            assert(spec_spatter_witness(
                                *old(state),
                                *state,
                                *infos,
                                evs@,
                                k2,
                                j,
                                hs2,
                                si2,
                            ));
                        }
                        assert forall|j: int|
                            0 <= j < k + 1 implies spec_spatter_spawned(
                            *old(state),
                            *state,
                            *infos,
                            evs@,
                            i as int,
                            j,
                        ) by {
                            if j < k {
                                assert(spec_spatter_spawned(
                                    *old(state),
                                    pre2,
                                    *infos,
                                    evs@,
                                    i as int,
                                    j,
                                ));
                                let (hs2, si2) = choose|hs2: Handle, si2: int|
                                    spec_spatter_witness(
                                        *old(state),
                                        pre2,
                                        *infos,
                                        evs@,
                                        i as int,
                                        j,
                                        hs2,
                                        si2,
                                    );
                                assert(state.actors.valid(hs2) && state.actors.at(hs2)
                                    == pre2.actors.at(hs2));
                                assert(spec_spatter_witness(
                                    *old(state),
                                    *state,
                                    *infos,
                                    evs@,
                                    i as int,
                                    j,
                                    hs2,
                                    si2,
                                ));
                            }
                        }
                    }
                    k = k + 1;
                }
                proof {
                    assert forall|k2: int, j: int|
                        0 <= k2 < i + 1 && spec_missile_first_event(*old(state), *infos, evs@, k2)
                            && 0 <= j < 8 implies spec_spatter_spawned(
                        *old(state),
                        *state,
                        *infos,
                        evs@,
                        k2,
                        j,
                    ) by {}
                }
            },
            None => {
                proof {
                    assert forall|h: Handle|
                        old(state).actors.valid(h) implies (#[trigger] state.actors.valid(h) <==> !(
                        infos.actors@[old(state).actors.at(h).info as int].missile
                            && spec_mover_before(evs@, h, i + 1))) by {
                        if h == actor {
                            if state.actors.valid(h) {
                                if infos.actors@[old(state).actors.at(h).info as int].missile {
                                    assert(state.actors.at(h) == old(state).actors.at(h));
                                    assert(ks0@.contains(h));
                                    assert(false);
                                }
                            }
                        } else {
                            assert(spec_mover_before(evs@, h, i + 1) == spec_mover_before(
                                evs@,
                                h,
                                i as int,
                            )) by {
                                if spec_mover_before(evs@, h, i + 1) {
                                    let kx = choose|kx: int|
                                        0 <= kx < i + 1 && ev_actor(evs@[kx]) == h;
                                    assert(kx < i);
                                }
                            }
                        }
                    }
                    assert forall|k2: int, j: int|
                        0 <= k2 < i + 1 && spec_missile_first_event(*old(state), *infos, evs@, k2)
                            && 0 <= j < 8 implies spec_spatter_spawned(
                        *old(state),
                        *state,
                        *infos,
                        evs@,
                        k2,
                        j,
                    ) by {
                        if k2 == i {
                            assert(old(state).actors.valid(actor));
                            assert(ks0@.contains(actor));
                            assert(infos.actors@[old(state).actors.at(actor).info as int].missile);
                            assert(!spec_mover_before(evs@, actor, i as int));
                            assert(state.actors.valid(actor));
                            assert(state.actors.at(actor) == old(state).actors.at(actor));
                            assert(false);
                        }
                    }
                    assert forall|k2: int|
                        0 <= k2 < i + 1 && spec_hit(*old(state), *infos, evs@, ev_other(evs@[k2]), k2)
                        implies #[trigger] spec_hit_recorded(
                        *old(state),
                        *infos,
                        evs@,
                        hits@,
                        hit_ks,
                        k2,
                    ) by {
                        if k2 == i {
                            assert(spec_missile_first_event(*old(state), *infos, evs@, i as int));
                            assert(false);
                        }
                    }
                }
            },
        }
        proof {
            if missile_data is Some {
                assert forall|h: Handle|
                    old(state).actors.valid(h) implies (#[trigger] state.actors.valid(h) <==> !(
                    infos.actors@[old(state).actors.at(h).info as int].missile
                        && spec_mover_before(evs@, h, i + 1))) by {
                    if h == actor {
                        assert(!state.actors.valid(h)) by {
                            if state.actors.valid(h) {
                                assert(state.actors.at(h) == old(state).actors.at(h));
                            }
                        }
                        assert(ev_actor(evs@[i as int]) == h);
                    } else {
                        assert(spec_mover_before(evs@, h, i + 1) == spec_mover_before(
                            evs@,
                            h,
                            i as int,
                        )) by {
                            if spec_mover_before(evs@, h, i + 1) {
                                let kx = choose|kx: int| 0 <= kx < i + 1 && ev_actor(evs@[kx]) == h;
                                assert(kx < i);
                            }
                        }
                    }
                }
            }
        }
        i = i + 1;
    }
    let ghost state_mid = *state;
    let nh = hits.len();
    let mut i: usize = 0;
    while i < nh
        invariant
            i <= nh,
            nh == hits@.len(),
            evs@ == old(state).contact_events@,
            infos.wf(),
            state.wf(*infos),
            old(state).wf(*infos),
            hit_ks.len() == hits@.len(),
            forall|k: int| 0 <= k < hits@.len() ==> 0 <= (#[trigger] hits@[k]).1 <= 1_000_000_000,
            forall|idx: int|
                0 <= idx < hits@.len() ==> 0 <= #[trigger] hit_ks[idx] < nev && spec_hit(
                    *old(state),
                    *infos,
                    evs@,
                    hits@[idx].0,
                    hit_ks[idx],
                ) && {
                    let dr = infos.actors@[old(state).actors.at(
                        ev_actor(evs@[hit_ks[idx]]),
                    ).info as int].missile_direct_damage;
                    dr.0 <= hits@[idx].1 <= dr.1
                },
            forall|idx1: int, idx2: int|
                0 <= idx1 < idx2 < hits@.len() ==> #[trigger] hit_ks[idx1] < #[trigger] hit_ks[idx2],
            forall|k2: int|
                0 <= k2 < nev && spec_hit(*old(state), *infos, evs@, ev_other(evs@[k2]), k2)
                    ==> #[trigger] spec_hit_recorded(*old(state), *infos, evs@, hits@, hit_ks, k2),
            forall|h: Handle|
                old(state).actors.valid(h) && !(#[trigger] state.actors.valid(h))
                    ==> infos.actors@[old(state).actors.at(h).info as int].missile,
            forall|h: Handle|
                old(state).actors.valid(h) ==> (#[trigger] state.actors.valid(h) <==> !(
                infos.actors@[old(state).actors.at(h).info as int].missile && spec_mover_before(
                    evs@,
                    h,
                    nev as int,
                ))),
            forall|h: Handle|
                old(state).actors.valid(h) && #[trigger] state.actors.valid(h)
                    ==> spec_untouched_or_damaged(old(state).actors.at(h), state.actors.at(h)),
            forall|h2: Handle|
                #[trigger] state.actors.valid(h2) && !old(state).actors.valid(h2)
                    ==> infos.actors@[state.actors.at(h2).info as int].name@ == "spatter"@,
            forall|t: Handle|
                old(state).actors.valid(t) && !infos.actors@[old(state).actors.at(
                    t,
                ).info as int].missile && spec_no_entry(hits@, t) ==> #[trigger] state.actors.valid(
                    t,
                ) && state.actors.at(t) == old(state).actors.at(t),
            forall|t: Handle, idx0: int|
                old(state).actors.valid(t) && !infos.actors@[old(state).actors.at(
                    t,
                ).info as int].missile && #[trigger] spec_sole_entry(hits@, t, idx0)
                    ==> state.actors.valid(t) && state.actors.at(t) == if idx0 < i {
                    spec_damaged(old(state).actors.at(t), hits@[idx0].1 as int)
                } else {
                    old(state).actors.at(t)
                },
            forall|k2: int, j: int|
                spec_missile_first_event(*old(state), *infos, evs@, k2) && 0 <= k2 < nev && 0 <= j
                    < 8 ==> #[trigger] spec_spatter_spawned(
                    *old(state),
                    *state,
                    *infos,
                    evs@,
                    k2,
                    j,
                ),
            state.spawner == old(state).spawner,
            state.me == old(state).me,
            state.contact_events == old(state).contact_events,
            state.round == old(state).round,
            state.game_state == old(state).game_state,
            state.bounds == old(state).bounds,
        decreases nh - i,
    {
        let (victim, dmg) = hits[i];
        match state.actor(victim) {
            Some(v) => {
                let v = *v;
                let updated = apply_damage(&v, dmg);
                proof {
                    assert(v.wf(*infos));
                    assert(updated.wf(*infos));
                }
                let ghost pre = *state;
                let _ = state.set_actor(victim, updated);
                proof {
                    assert(state.actors.at(victim) == updated);
                    assert forall|h: Handle|
                        #[trigger] pre.actors.valid(h) && h != victim implies state.actors.at(h)
                        == pre.actors.at(h) by {
                        if h.index == victim.index {
                            pre.actors.lemma_index_unique(h, victim);
                            assert(false);
                        }
                    }
                    assert forall|h: Handle|
                        old(state).actors.valid(h) && #[trigger] state.actors.valid(h) implies
                        spec_untouched_or_damaged(old(state).actors.at(h), state.actors.at(h)) by {
                        if h == victim {
                            let oa = old(state).actors.at(h);
                            if pre.actors.at(h) == oa {
                                assert(state.actors.at(h) == spec_damaged(oa, dmg as int));
                            } else {
                                let d = choose|d: int|
                                    0 <= d && pre.actors.at(h) == spec_damaged(oa, d);
                                lemma_damaged_compose(oa, d, dmg as int);
                                assert(state.actors.at(h) == spec_damaged(oa, d + dmg));
                            }
                        }
                    }
                    assert forall|h2: Handle|
                        #[trigger] state.actors.valid(h2) && !old(state).actors.valid(h2) implies
                        infos.actors@[state.actors.at(h2).info as int].name@ == "spatter"@ by {
                        if h2 == victim {
                            assert(pre.actors.at(h2).info == updated.info);
                        }
                    }
                    assert forall|t: Handle|
                        old(state).actors.valid(t) && !infos.actors@[old(state).actors.at(
                            t,
                        ).info as int].missile && spec_no_entry(hits@, t) implies
                        #[trigger] state.actors.valid(t) && state.actors.at(t) == old(
                        state,
                    ).actors.at(t) by {
                        assert(hits@[i as int].0 != t);
                        assert(t != victim);
                    }
                    assert forall|t: Handle, idx0: int|
                        old(state).actors.valid(t) && !infos.actors@[old(state).actors.at(
                            t,
                        ).info as int].missile && #[trigger] spec_sole_entry(hits@, t, idx0)
                        implies state.actors.valid(t) && state.actors.at(t) == if idx0 < i + 1 {
                        spec_damaged(old(state).actors.at(t), hits@[idx0].1 as int)
                    } else {
                        old(state).actors.at(t)
                    } by {
                        if t == victim {
                            assert(hits@[i as int].0 == t);
                            assert(idx0 == i);
                            assert(pre.actors.at(t) == old(state).actors.at(t));
                            assert(state.actors.at(t) == spec_damaged(
                                old(state).actors.at(t),
                                dmg as int,
                            ));
                        } else {
                            assert(idx0 != i) by {
                                if idx0 == i {
                                    assert(hits@[i as int].0 == t);
                                }
                            }
                            assert(state.actors.at(t) == pre.actors.at(t));
                        }
                    }
                    assert forall|k2: int, j: int|
                        spec_missile_first_event(*old(state), *infos, evs@, k2) && 0 <= k2 < nev
                            && 0 <= j < 8 implies spec_spatter_spawned(
                        *old(state),
                        *state,
                        *infos,
                        evs@,
                        k2,
                        j,
                    ) by {
                        assert(spec_spatter_spawned(*old(state), pre, *infos, evs@, k2, j));
                        let (hs2, si2) = choose|hs2: Handle, si2: int|
                            spec_spatter_witness(*old(state), pre, *infos, evs@, k2, j, hs2, si2);
                        assert(hs2 != victim) by {
                            if hs2 == victim {
                                assert(old(state).actors.valid(victim)) by {
                                    assert(spec_hit(
                                        *old(state),
                                        *infos,
                                        evs@,
                                        hits@[i as int].0,
                                        hit_ks[i as int],
                                    ));
                                }
                                assert(false);
                            }
                        }
                        assert(state.actors.at(hs2) == pre.actors.at(hs2));
                        assert(spec_spatter_witness(
                            *old(state),
                            *state,
                            *infos,
                            evs@,
                            k2,
                            j,
                            hs2,
                            si2,
                        ));
                    }
                }
            },
            None => {
                proof {
                    assert forall|t: Handle, idx0: int|
                        old(state).actors.valid(t) && !infos.actors@[old(state).actors.at(
                            t,
                        ).info as int].missile && #[trigger] spec_sole_entry(hits@, t, idx0)
                        implies state.actors.valid(t) && state.actors.at(t) == if idx0 < i + 1 {
                        spec_damaged(old(state).actors.at(t), hits@[idx0].1 as int)
                    } else {
                        old(state).actors.at(t)
                    } by {
                        if idx0 == i {
                            assert(hits@[i as int].0 == t);
                            assert(victim == t);
                            assert(state.actors.valid(t));
                            assert(false);
                        }
                    }
                }
            },
        }
        i = i + 1;
    }
    proof {
        assert forall|k: int|
            0 <= k < old(state).contact_events@.len() && old(state).actors.valid(
                ev_actor(#[trigger] old(state).contact_events@[k]),
            ) && infos.actors@[old(state).actors.at(
                ev_actor(old(state).contact_events@[k]),
            ).info as int].missile implies !state.actors.valid(
            ev_actor(old(state).contact_events@[k]),
        ) by {
            let m = ev_actor(evs@[k]);
            assert(spec_mover_before(evs@, m, nev as int)) by {
                assert(ev_actor(evs@[k]) == m);
            }
        }
        assert forall|t: Handle|
            old(state).actors.valid(t) && !infos.actors@[old(state).actors.at(
                t,
            ).info as int].missile && #[trigger] spec_unhit_by(
            *old(state),
            *infos,
            old(state).contact_events@,
            t,
        ) implies state.actors.valid(t) && state.actors.at(t) == old(state).actors.at(t) by {
            assert(spec_no_entry(hits@, t)) by {
                assert forall|idx: int| 0 <= idx < hits@.len() implies (#[trigger] hits@[idx]).0
                    != t by {
                    if hits@[idx].0 == t {
                        assert(spec_hit(*old(state), *infos, evs@, t, hit_ks[idx]));
                    }
                }
            }
        }
        assert forall|t: Handle, k: int|
            old(state).actors.valid(t) && !infos.actors@[old(state).actors.at(
                t,
            ).info as int].missile && spec_sole_hit(*old(state), *infos, evs@, t, k) implies
            #[trigger] spec_took_sole_hit(*old(state), *state, *infos, evs@, t, k) by {
            assert(spec_hit(*old(state), *infos, evs@, t, k));
            assert(ev_other(evs@[k]) == t);
            assert(spec_hit_recorded(*old(state), *infos, evs@, hits@, hit_ks, k));
            let idx = choose|idx: int|
                {
                    let dr = infos.actors@[old(state).actors.at(
                        ev_actor(evs@[k]),
                    ).info as int].missile_direct_damage;
                    &&& 0 <= idx < hits@.len()
                    &&& idx < hit_ks.len()
                    &&& #[trigger] hit_ks[idx] == k
                    &&& hits@[idx].0 == ev_other(evs@[k])
                    &&& dr.0 <= hits@[idx].1 <= dr.1
                };
            assert(spec_sole_entry(hits@, t, idx)) by {
                assert forall|idx2: int|
                    0 <= idx2 < hits@.len() && idx2 != idx implies (#[trigger] hits@[idx2]).0
                    != t by {
                    if hits@[idx2].0 == t {
                        assert(spec_hit(*old(state), *infos, evs@, t, hit_ks[idx2]));
                        assert(hit_ks[idx2] == k);
                        if idx2 < idx {
                            assert(hit_ks[idx2] < hit_ks[idx]);
                        } else {
                            assert(hit_ks[idx] < hit_ks[idx2]);
                        }
                        assert(false);
                    }
                }
            }
            assert(state.actors.at(t) == spec_damaged(
                old(state).actors.at(t),
                hits@[idx].1 as int,
            ));
            assert(spec_damaged(old(state).actors.at(t), hits@[idx].1 as int)
                == state.actors.at(t));
        }
    }
}

/// No event of the list lands a hit on `t`.
pub open spec fn spec_unhit_by(
    pre: State,
    infos: Infos,
    evs: Seq<ContactEvent>,
    t: Handle,
) -> bool {
    forall|k: int| !#[trigger] spec_hit(pre, infos, evs, t, k)
}

/// Firing twice within less than one cooldown period yields exactly one
/// shot: an actor that fires on one attack pass cannot fire again on the
/// next while the elapsed time stays below `1_000_000 / rate_of_fire`
/// milliseconds.
pub proof fn lemma_no_double_fire(a: Actor, infos: Infos, dt1: int, dt2: int)
    requires
        a.weapon < infos.weapons@.len(),
        0 < infos.weapons@[a.weapon as int].rate_of_fire <= 1_000_000,
        spec_fires(a, infos, dt1),
        0 <= dt2 < spec_fire_cooldown(infos.weapons@[a.weapon as int].rate_of_fire as int),
    ensures
        !spec_fires(spec_attack_actor(a, infos, dt1), infos, dt2),
{
    let rof = infos.weapons@[a.weapon as int].rate_of_fire as int;
    let a2 = spec_attack_actor(a, infos, dt1);
    vstd::arithmetic::div_mod::lemma_div_pos_is_pos(1_000_000, rof);
    assert(a2.state.weapon_cooldown == spec_fire_cooldown(rof));
    assert(spec_cooldown_decay(a2.state.weapon_cooldown as int, dt2) > 0);
}

} // verus!
