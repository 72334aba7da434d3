//! Movement: locomotion steering, velocity integration, disc-disc contact
//! resolution and the per-tick physics pass.

use vstd::prelude::*;

use crate::arena::Handle;
use crate::fixed::{
    lemma_mul_bound, lemma_sdiv_bound, sdiv, spec_clamp, clamp_i64, MAX_DT, POS_LIMIT, SCALE,
    VEL_LIMIT,
};
use crate::infos::Infos;
use crate::spatial::SpatialIndex;
use crate::state::{Actor, ActorState, ContactEvent, State};
use crate::vec2::{abs_i, Vec2};

verus! {

/// How far around a mover the spatial index is asked for blockers
/// (milli-units).
pub const LOOKAHEAD: i64 = 2000;

/// The velocity change budget per tick, in milli-units per second: the
/// description speed squared (in units per second), times the tick length
/// in seconds, brought back to milli-units.
pub open spec fn spec_max_acceleration(speed: int, dt: int) -> int {
    (speed * speed * dt) / 1_000_000
}

/// Where an actor's velocity steers to this tick: toward the locomotion
/// target `dir * speed`, moving at most the acceleration budget, clamped
/// into the engine's velocity range.
pub open spec fn spec_steer(vel: Vec2, dir: Vec2, speed: int, dt: int) -> Vec2 {
    let desired = dir.spec_scale_div(speed, SCALE as int);
    let delta = desired.sub_spec(vel);
    let dlen = delta.spec_len();
    let macc = spec_max_acceleration(speed, dt);
    let add = if dlen < macc {
        dlen
    } else {
        macc
    };
    let step = delta.spec_normalize().spec_scale_div(add, SCALE as int);
    Vec2 {
        x: spec_clamp(vel.x + step.x, -VEL_LIMIT as int, VEL_LIMIT as int) as i64,
        y: spec_clamp(vel.y + step.y, -VEL_LIMIT as int, VEL_LIMIT as int) as i64,
    }
}

/// Computes the steered velocity.
pub fn steer(vel: Vec2, dir: Vec2, speed: i64, dt: i64) -> (r: Vec2)
    requires
        vel.in_bounds(VEL_LIMIT as int),
        dir.in_bounds(SCALE as int),
        0 <= speed <= VEL_LIMIT,
        0 <= dt <= MAX_DT,
    ensures
        r == spec_steer(vel, dir, speed as int, dt as int),
        r.in_bounds(VEL_LIMIT as int),
{
    let desired = dir.dir_scale(speed);
    let delta = desired.sub(vel);
    let dlen = delta.length();
    proof {
        assert(0 <= (speed as int) * (speed as int) <= 1_000_000_000_000 && 0 <= (speed as int) * (
        speed as int) * (dt as int) <= 1_000_000_000_000_000) by (nonlinear_arith)
            requires
                0 <= speed <= 1_000_000,
                0 <= dt <= 1000,
        ;
        vstd::arithmetic::div_mod::lemma_div_pos_is_pos(
            (speed as int) * (speed as int) * (dt as int),
            1_000_000,
        );
        vstd::arithmetic::div_mod::lemma_div_is_ordered(
            (speed as int) * (speed as int) * (dt as int),
            1_000_000_000_000_000,
            1_000_000,
        );
        vstd::arithmetic::div_mod::lemma_div_multiples_vanish(1_000_000_000, 1_000_000);
    }
    let macc = ((speed * speed * dt) as u64 / 1_000_000u64) as i64;
    let add = if dlen < macc {
        dlen
    } else {
        macc
    };
    let ndir = delta.normalize();
    let step = ndir.dir_scale(add);
    let rx = clamp_i64(vel.x + step.x, -VEL_LIMIT, VEL_LIMIT);
    let ry = clamp_i64(vel.y + step.y, -VEL_LIMIT, VEL_LIMIT);
    Vec2 { x: rx, y: ry }
}

/// Where an actor ends up after integrating its velocity for `dt`
/// milliseconds, clamped into the world.
pub open spec fn spec_step_pos(pos: Vec2, vel: Vec2, dt: int) -> Vec2 {
    let moved = vel.spec_scale_div(dt, 1000);
    Vec2 {
        x: spec_clamp(pos.x + moved.x, -POS_LIMIT as int, POS_LIMIT as int) as i64,
        y: spec_clamp(pos.y + moved.y, -POS_LIMIT as int, POS_LIMIT as int) as i64,
    }
}

/// Computes the integrated position.
pub fn step_pos(pos: Vec2, vel: Vec2, dt: i64) -> (r: Vec2)
    requires
        pos.in_bounds(POS_LIMIT as int),
        vel.in_bounds(VEL_LIMIT as int),
        0 <= dt <= MAX_DT,
    ensures
        r == spec_step_pos(pos, vel, dt as int),
        r.in_bounds(POS_LIMIT as int),
{
    let moved = vel.scale_div(dt, 1000);
    proof {
        lemma_mul_bound(vel.x as int, dt as int, VEL_LIMIT as int, MAX_DT as int);
        lemma_mul_bound(vel.y as int, dt as int, VEL_LIMIT as int, MAX_DT as int);
        lemma_sdiv_bound((vel.x as int) * (dt as int), 1000, 1_000_000_000);
        lemma_sdiv_bound((vel.y as int) * (dt as int), 1000, 1_000_000_000);
        vstd::arithmetic::div_mod::lemma_div_is_ordered(1_000_000_000, 1_000_000_000_000, 1000);
        vstd::arithmetic::div_mod::lemma_div_multiples_vanish(1_000_000_000, 1000);
    }
    let rx = clamp_i64(pos.x + moved.x, -POS_LIMIT, POS_LIMIT);
    let ry = clamp_i64(pos.y + moved.y, -POS_LIMIT, POS_LIMIT);
    Vec2 { x: rx, y: ry }
}

/// Resolves one disc-disc overlap: if the candidate position penetrates the
/// other disc (signed distance below zero), it is pushed back along the
/// contact normal by the penetration depth, then held inside the world.
pub open spec fn spec_resolve(cand: Vec2, other: Vec2, rsum: int) -> Vec2 {
    let delta = cand.sub_spec(other);
    let d = delta.spec_len();
    if d < rsum {
        let push = delta.spec_normalize().spec_scale_div(rsum - d, SCALE as int);
        Vec2 {
            x: spec_clamp(cand.x + push.x, -POS_LIMIT as int, POS_LIMIT as int) as i64,
            y: spec_clamp(cand.y + push.y, -POS_LIMIT as int, POS_LIMIT as int) as i64,
        }
    } else {
        cand
    }
}

/// Whether the candidate position penetrates the other disc.
pub open spec fn spec_penetrates(cand: Vec2, other: Vec2, rsum: int) -> bool {
    cand.sub_spec(other).spec_len() < rsum
}

/// Computes the resolved candidate position; reports whether there was a
/// penetrating contact.
pub fn resolve_contact(cand: Vec2, other: Vec2, rsum: i64) -> (r: (Vec2, bool))
    requires
        cand.in_bounds(POS_LIMIT as int),
        other.in_bounds(POS_LIMIT as int),
        0 <= rsum <= 2_000_000,
    ensures
        r.0 == spec_resolve(cand, other, rsum as int),
        r.1 == spec_penetrates(cand, other, rsum as int),
        r.0.in_bounds(POS_LIMIT as int),
{
    let delta = cand.sub(other);
    let d = delta.length();
    if d < rsum {
        let n = delta.normalize();
        let push = n.dir_scale(rsum - d);
        let rx = clamp_i64(cand.x + push.x, -POS_LIMIT, POS_LIMIT);
        let ry = clamp_i64(cand.y + push.y, -POS_LIMIT, POS_LIMIT);
        (Vec2 { x: rx, y: ry }, true)
    } else {
        (cand, false)
    }
}

/// One actor's locomotion update: a dead actor's locomotion input is forced
/// to zero, then the velocity steers toward the input.
pub open spec fn spec_locomotion_step(a: Actor, infos: Infos, dt: int) -> Actor {
    let dir = if a.state.health > 0 {
        a.state.locomotion_dir
    } else {
        Vec2 { x: 0, y: 0 }
    };
    let speed = infos.actors@[a.info as int].speed;
    Actor {
        state: crate::state::ActorState {
            locomotion_dir: dir,
            vel: spec_steer(a.state.vel, dir, speed as int, dt),
            ..a.state
        },
        ..a
    }
}

/// Computes one actor's locomotion update.
pub fn locomotion_step(a: &Actor, infos: &Infos, dt: i64) -> (r: Actor)
    requires
        a.wf(*infos),
        infos.wf(),
        0 <= dt <= MAX_DT,
    ensures
        r == spec_locomotion_step(*a, *infos, dt as int),
        r.wf(*infos),
        r.handle == a.handle,
{
    let dir = if a.is_alive() {
        a.state.locomotion_dir
    } else {
        Vec2::zero()
    };
    let speed = a.actor_info(infos).speed;
    let vel = steer(a.state.vel, dir, speed, dt);
    let mut r = *a;
    r.state.locomotion_dir = dir;
    r.state.vel = vel;
    r
}

/// The locomotion pass: every actor's locomotion input and velocity are
/// updated by [`spec_locomotion_step`]; nothing else changes.
pub fn locomotion(state: &mut State, infos: &Infos, dt: i64)
    requires
        old(state).wf(*infos),
        infos.wf(),
        0 <= dt <= MAX_DT,
    ensures
        final(state).wf(*infos),
        forall|h: Handle|
            #[trigger] final(state).actors.valid(h) <==> old(state).actors.valid(h),
        forall|h: Handle|
            old(state).actors.valid(h) ==> #[trigger] final(state).actors.at(h)
                == spec_locomotion_step(old(state).actors.at(h), *infos, dt as int),
        final(state).spawner == old(state).spawner,
        final(state).me == old(state).me,
        final(state).contact_events == old(state).contact_events,
        final(state).round == old(state).round,
        final(state).game_state == old(state).game_state,
        final(state).bounds == old(state).bounds,
{
    let ks = state.actor_handles();
    let n = ks.len();
    let mut i: usize = 0;
    while i < n
        invariant
            i <= n,
            n == ks@.len(),
            infos.wf(),
            0 <= dt <= MAX_DT,
            state.wf(*infos),
            ks@ == old(state).actors.live_handles(),
            old(state).wf(*infos),
            forall|j: int| 0 <= j < ks@.len() ==> old(state).actors.valid(#[trigger] ks@[j]),
            forall|hh: Handle| old(state).actors.valid(hh) ==> #[trigger] ks@.contains(hh),
            forall|j: int, k: int| 0 <= j < k < ks@.len() ==> ks@[j].index < ks@[k].index,
            forall|h: Handle|
                #[trigger] state.actors.valid(h) <==> old(state).actors.valid(h),
            forall|j: int|
                0 <= j < i ==> #[trigger] state.actors.at(ks@[j]) == spec_locomotion_step(
                    old(state).actors.at(ks@[j]),
                    *infos,
                    dt as int,
                ),
            forall|j: int|
                i <= j < ks@.len() ==> #[trigger] state.actors.at(ks@[j]) == old(state).actors.at(ks@[j]),
            state.spawner == old(state).spawner,
            state.me == old(state).me,
            state.contact_events == old(state).contact_events,
            state.round == old(state).round,
            state.game_state == old(state).game_state,
            state.bounds == old(state).bounds,
        decreases n - i,
    {
        let h = ks[i];
        let a = match state.actor(h) {
            Some(a) => *a,
            None => {
                proof {
                    assert(false);
                }
                vstd::pervasive::unreached()
            },
        };
        let updated = locomotion_step(&a, infos, dt);
        let ghost pre = *state;
        let _ = state.set_actor(h, updated);
        proof {
            assert forall|j: int|
                0 <= j < ks@.len() && j != i implies #[trigger] state.actors.at(ks@[j])
                == pre.actors.at(ks@[j]) by {
                if ks@[j].index == h.index {
                    pre.actors.lemma_index_unique(ks@[j], h);
                    assert(j == i);
                }
            }
        }
        i = i + 1;
    }
    proof {
        assert forall|h: Handle| old(state).actors.valid(h) implies #[trigger] state.actors.at(h)
            == spec_locomotion_step(old(state).actors.at(h), *infos, dt as int) by {
            assert(ks@.contains(h));
            let j = choose|j: int| 0 <= j < ks@.len() && ks@[j] == h;
        }
    }
}



/// What one physics pass may do to a single actor: only the position moves,
/// a resting actor stays put, and a non-blocking mover integrates its
/// velocity exactly.
pub open spec fn spec_physics_step_ok(oa: Actor, na: Actor, infos: Infos, dt: int) -> bool {
    &&& na == (Actor { state: ActorState { pos: na.state.pos, ..oa.state }, ..oa })
    &&& na.state.pos.in_bounds(POS_LIMIT as int)
    &&& (oa.state.vel == (Vec2 { x: 0i64, y: 0i64 }) ==> na.state.pos == oa.state.pos)
    &&& (oa.state.vel != (Vec2 { x: 0i64, y: 0i64 }) && !oa.spec_is_solid(infos)
        ==> na.state.pos == spec_step_pos(oa.state.pos, oa.state.vel, dt))
}

/// The blocker position a mover resolved against: the blocker's settled
/// position when its slot comes earlier (it moved first), else its starting
/// position.
pub open spec fn spec_blocker_pos(pre: State, post: State, actor: Handle, other: Handle) -> Vec2 {
    if other.index < actor.index {
        post.actors.at(other).state.pos
    } else {
        pre.actors.at(other).state.pos
    }
}

/// The radii sum of a mover and a blocker, from their descriptions.
pub open spec fn spec_rsum(pre: State, infos: Infos, actor: Handle, other: Handle) -> int {
    infos.actors@[pre.actors.at(actor).info as int].radius as int
        + infos.actors@[pre.actors.at(other).info as int].radius as int
}

/// What every recorded contact event certifies: the mover was a moving,
/// solid, living actor; the blocker a distinct solid, living actor that the
/// mover was moving into (non-negative dot of its direction with the
/// mover's velocity); and some in-world candidate position of the mover
/// penetrated the blocker's disc.
pub open spec fn spec_event_ok(pre: State, post: State, ev: ContactEvent, infos: Infos) -> bool {
    match ev {
        ContactEvent::Actor { actor, other_actor } => {
            let bpos = spec_blocker_pos(pre, post, actor, other_actor);
            &&& pre.actors.valid(actor)
            &&& pre.actors.valid(other_actor)
            &&& actor != other_actor
            &&& pre.actors.at(actor).state.vel != (Vec2 { x: 0i64, y: 0i64 })
            &&& pre.actors.at(actor).spec_is_solid(infos)
            &&& pre.actors.at(other_actor).spec_is_solid(infos)
            &&& bpos.sub_spec(pre.actors.at(actor).state.pos).spec_normalize().spec_dot(
                pre.actors.at(actor).state.vel,
            ) >= 0
            &&& exists|c: Vec2|
                #[trigger] spec_penetrates(c, bpos, spec_rsum(pre, infos, actor, other_actor))
                    && c.in_bounds(POS_LIMIT as int)
        },
    }
}

/// Exactly two actors are live: `h` and `b`.
pub open spec fn spec_pair_config(pre: State, h: Handle, b: Handle) -> bool {
    &&& pre.actors.valid(h)
    &&& pre.actors.valid(b)
    &&& h != b
    &&& forall|h2: Handle| #[trigger] pre.actors.valid(h2) ==> h2 == h || h2 == b
}

/// Exactly one actor is live: `h`.
pub open spec fn spec_solo_config(pre: State, h: Handle) -> bool {
    &&& pre.actors.valid(h)
    &&& forall|h2: Handle| #[trigger] pre.actors.valid(h2) ==> h2 == h
}

/// A two-actor world where mover `h` bears down on blocker `b`: `h` is a
/// moving solid actor, `b` a solid actor whose starting position lies
/// within the mover's lookahead square, and the mover moves into it.
pub open spec fn spec_pair_hot(pre: State, cur: State, infos: Infos, h: Handle, b: Handle) -> bool {
    &&& spec_pair_config(pre, h, b)
    &&& pre.actors.at(h).state.vel != (Vec2 { x: 0i64, y: 0i64 })
    &&& pre.actors.at(h).spec_is_solid(infos)
    &&& pre.actors.at(b).spec_is_solid(infos)
    &&& crate::spatial::within_square(
        pre.actors.at(b).state.pos,
        pre.actors.at(h).state.pos,
        LOOKAHEAD as int,
    )
    &&& spec_blocker_pos(pre, cur, h, b).sub_spec(
        pre.actors.at(h).state.pos,
    ).spec_normalize().spec_dot(pre.actors.at(h).state.vel) >= 0
}

/// The mover of a two-actor world ended exactly where one disc-disc
/// resolution puts it, and a penetrating candidate left a contact event for
/// the pair.
pub open spec fn spec_pair_done(
    pre: State,
    cur: State,
    infos: Infos,
    dt: int,
    h: Handle,
    b: Handle,
) -> bool {
    let c0 = spec_step_pos(pre.actors.at(h).state.pos, pre.actors.at(h).state.vel, dt);
    let bpos = spec_blocker_pos(pre, cur, h, b);
    let rsum = spec_rsum(pre, infos, h, b);
    &&& cur.actors.at(h).state.pos == spec_resolve(c0, bpos, rsum)
    &&& (spec_penetrates(c0, bpos, rsum) ==> cur.contact_events@.contains(
        ContactEvent::Actor { actor: h, other_actor: b },
    ))
}

/// `h` stands among the first `bound` entries of `ks`.
pub open spec fn spec_among(ks: Seq<Handle>, bound: int, h: Handle) -> bool {
    exists|j: int| 0 <= j < bound && #[trigger] ks[j] == h
}

/// The physics pass: contact events are cleared and rebuilt, every actor's
/// position is integrated and, for solid movers, resolved against nearby
/// solid actors — each candidate once, in the index's order; nothing but
/// positions and the event list changes.  A lone actor integrates exactly;
/// in a two-actor world the mover's resolution against its blocker is
/// pinned, and a penetrating approach leaves a contact event.
#[verifier::rlimit(100)]
pub fn physics(state: &mut State, infos: &Infos, dt: i64)
    requires
        old(state).wf(*infos),
        infos.wf(),
        0 <= dt <= MAX_DT,
    ensures
        final(state).wf(*infos),
        forall|h: Handle|
            #[trigger] final(state).actors.valid(h) <==> old(state).actors.valid(h),
        forall|h: Handle|
            old(state).actors.valid(h) ==> spec_physics_step_ok(
                old(state).actors.at(h),
                #[trigger] final(state).actors.at(h),
                *infos,
                dt as int,
            ),
        forall|k: int|
            0 <= k < final(state).contact_events@.len() ==> spec_event_ok(
                *old(state),
                *final(state),
                #[trigger] final(state).contact_events@[k],
                *infos,
            ),
        forall|h: Handle|
            spec_solo_config(*old(state), h) && old(state).actors.at(h).state.vel != (Vec2 {
                x: 0i64,
                y: 0i64,
            }) ==> #[trigger] final(state).actors.at(h).state.pos == spec_step_pos(
                old(state).actors.at(h).state.pos,
                old(state).actors.at(h).state.vel,
                dt as int,
            ),
        forall|h: Handle, b: Handle|
            #[trigger] spec_pair_hot(*old(state), *final(state), *infos, h, b) ==> spec_pair_done(
                *old(state),
                *final(state),
                *infos,
                dt as int,
                h,
                b,
            ),
        final(state).spawner == old(state).spawner,
        final(state).me == old(state).me,
        final(state).round == old(state).round,
        final(state).game_state == old(state).game_state,
        final(state).bounds == old(state).bounds,
{
    state.contact_events.clear();
    let ks = state.actor_handles();
    let n = ks.len();
    let mut spatial = SpatialIndex::new();
    let mut i: usize = 0;
    while i < n
        invariant
            i <= n,
            n == ks@.len(),
            *state == (State { contact_events: state.contact_events, ..*old(state) }),
            state.contact_events@.len() == 0,
            state.wf(*infos),
            infos.wf(),
            spatial.wf(),
            ks@ == old(state).actors.live_handles(),
            forall|j: int| 0 <= j < ks@.len() ==> state.actors.valid(#[trigger] ks@[j]),
            spatial.entries@.len() == i,
            forall|j: int|
                0 <= j < i ==> #[trigger] spatial.entries@[j] == (
                ks@[j],
                old(state).actors.at(ks@[j]).state.pos,
            ),
        decreases n - i,
    {
        let h = ks[i];
        match state.actor(h) {
            Some(a) => {
                spatial.insert(h, a.state.pos);
            },
            None => {
                proof {
                    assert(false);
                }
            },
        }
        i = i + 1;
    }
    let mut i: usize = 0;
    while i < n
        invariant
            i <= n,
            n == ks@.len(),
            infos.wf(),
            0 <= dt <= MAX_DT,
            state.wf(*infos),
            spatial.wf(),
            spatial.entries@.len() == n,
            forall|j: int|
                0 <= j < n ==> #[trigger] spatial.entries@[j] == (
                ks@[j],
                old(state).actors.at(ks@[j]).state.pos,
            ),
            ks@ == old(state).actors.live_handles(),
            old(state).wf(*infos),
            forall|j: int| 0 <= j < ks@.len() ==> old(state).actors.valid(#[trigger] ks@[j]),
            forall|hh: Handle| old(state).actors.valid(hh) ==> #[trigger] ks@.contains(hh),
            forall|j: int, k: int| 0 <= j < k < ks@.len() ==> ks@[j].index < ks@[k].index,
            forall|h: Handle|
                #[trigger] state.actors.valid(h) <==> old(state).actors.valid(h),
            forall|j: int|
                0 <= j < i ==> spec_physics_step_ok(
                    old(state).actors.at(ks@[j]),
                    #[trigger] state.actors.at(ks@[j]),
                    *infos,
                    dt as int,
                ),
            forall|j: int|
                i <= j < ks@.len() ==> #[trigger] state.actors.at(ks@[j]) == old(
                    state,
                ).actors.at(ks@[j]),
            forall|k: int|
                0 <= k < state.contact_events@.len() ==> spec_event_ok(
                    *old(state),
                    *state,
                    #[trigger] state.contact_events@[k],
                    *infos,
                ),
            forall|k: int|
                0 <= k < state.contact_events@.len() ==> spec_among(
                    ks@,
                    i as int,
                    ev_mover(#[trigger] state.contact_events@[k]),
                ),
            forall|h: Handle|
                spec_solo_config(*old(state), h) && old(state).actors.at(h).state.vel != (Vec2 {
                    x: 0i64,
                    y: 0i64,
                }) && spec_among(ks@, i as int, h) ==> #[trigger] state.actors.at(h).state.pos
                    == spec_step_pos(
                    old(state).actors.at(h).state.pos,
                    old(state).actors.at(h).state.vel,
                    dt as int,
                ),
            forall|h: Handle, b: Handle|
                #[trigger] spec_pair_hot(*old(state), *state, *infos, h, b) && spec_among(
                    ks@,
                    i as int,
                    h,
                ) ==> spec_pair_done(*old(state), *state, *infos, dt as int, h, b),
            state.spawner == old(state).spawner,
            state.me == old(state).me,
            state.round == old(state).round,
            state.game_state == old(state).game_state,
            state.bounds == old(state).bounds,
        decreases n - i,
    {
        let h = ks[i];
        let a = match state.actor(h) {
            Some(a) => *a,
            None => {
                proof {
                    assert(false);
                }
                vstd::pervasive::unreached()
            },
        };
        proof {
            assert(state.actors.at(h) == old(state).actors.at(h));
        }
        let ghost events_entry = state.contact_events@;
        if !a.state.vel.is_zero() {
            let mut cand = step_pos(a.state.pos, a.state.vel, dt);
            let ghost c0 = cand;
            if a.is_solid(infos) {
                let q = spatial.query_around(a.state.pos, LOOKAHEAD);
                let mut seen: Vec<Handle> = Vec::new();
                let qn = q.len();
                let mut qi: usize = 0;
                while qi < qn
                    invariant
                        qi <= qn,
                        qn == q@.len(),
                        i < n,
                        n == ks@.len(),
                        infos.wf(),
                        0 <= dt <= MAX_DT,
                        state.wf(*infos),
                        cand.in_bounds(POS_LIMIT as int),
                        h == ks@[i as int],
                        a == old(state).actors.at(h),
                        a.wf(*infos),
                        old(state).wf(*infos),
                        a.spec_is_solid(*infos),
                        a.state.vel != (Vec2 { x: 0i64, y: 0i64 }),
                        c0 == spec_step_pos(a.state.pos, a.state.vel, dt as int),
                        events_entry == state.contact_events@.subrange(0, events_entry.len() as int),
                        events_entry.len() <= state.contact_events@.len(),
                        ks@ == old(state).actors.live_handles(),
                        forall|j: int|
                            0 <= j < ks@.len() ==> old(state).actors.valid(#[trigger] ks@[j]),
                        forall|hh: Handle|
                            old(state).actors.valid(hh) ==> #[trigger] ks@.contains(hh),
                        forall|j: int, k: int|
                            0 <= j < k < ks@.len() ==> ks@[j].index < ks@[k].index,
                        forall|h2: Handle|
                            #[trigger] state.actors.valid(h2) <==> old(state).actors.valid(h2),
                        forall|j: int|
                            0 <= j < i ==> spec_physics_step_ok(
                                old(state).actors.at(ks@[j]),
                                #[trigger] state.actors.at(ks@[j]),
                                *infos,
                                dt as int,
                            ),
                        forall|j: int|
                            i <= j < ks@.len() ==> #[trigger] state.actors.at(ks@[j]) == old(
                                state,
                            ).actors.at(ks@[j]),
                        forall|k: int|
                            0 <= k < state.contact_events@.len() ==> spec_event_ok(
                                *old(state),
                                *state,
                                #[trigger] state.contact_events@[k],
                                *infos,
                            ),
                        forall|k: int|
                            0 <= k < state.contact_events@.len() ==> spec_among(
                                ks@,
                                i + 1,
                                ev_mover(#[trigger] state.contact_events@[k]),
                            ),
                        forall|idx: int|
                            0 <= idx < qi ==> q@[idx] == h || #[trigger] seen@.contains(q@[idx]),
                        spec_solo_config(*old(state), h) ==> cand == c0,
                        forall|b: Handle|
                            #[trigger] spec_pair_hot(*old(state), *state, *infos, h, b) ==> (
                            (seen@.contains(b) ==> cand == spec_resolve(
                                c0,
                                spec_blocker_pos(*old(state), *state, h, b),
                                spec_rsum(*old(state), *infos, h, b),
                            ) && (spec_penetrates(
                                c0,
                                spec_blocker_pos(*old(state), *state, h, b),
                                spec_rsum(*old(state), *infos, h, b),
                            ) ==> state.contact_events@.contains(
                                ContactEvent::Actor { actor: h, other_actor: b },
                            ))) && (!seen@.contains(b) ==> cand == c0)),
                        forall|hp: Handle, bp: Handle|
                            #[trigger] spec_pair_hot(*old(state), *state, *infos, hp, bp)
                                && spec_among(ks@, i as int, hp) ==> spec_pair_done(
                                *old(state),
                                *state,
                                *infos,
                                dt as int,
                                hp,
                                bp,
                            ),
                        forall|hs: Handle|
                            spec_solo_config(*old(state), hs) && old(state).actors.at(
                                hs,
                            ).state.vel != (Vec2 { x: 0i64, y: 0i64 }) && spec_among(
                                ks@,
                                i as int,
                                hs,
                            ) ==> #[trigger] state.actors.at(hs).state.pos == spec_step_pos(
                                old(state).actors.at(hs).state.pos,
                                old(state).actors.at(hs).state.vel,
                                dt as int,
                            ),
                        state.spawner == old(state).spawner,
                        state.me == old(state).me,
                        state.round == old(state).round,
                        state.game_state == old(state).game_state,
                        state.bounds == old(state).bounds,
                    decreases qn - qi,
                {
                    let ghost st_loop = *state;
                    let h2 = q[qi];
                    let fresh = if h2.index != h.index || h2.generation != h.generation {
                        !crate::arena::contains_handle(&seen, h2)
                    } else {
                        false
                    };
                    if fresh {
                        let ghost seen_pre = seen@;
                        let ghost cand_entry = cand;
                        let ghost evs_entry2 = state.contact_events@;
                        seen.push(h2);
                        let other = match state.actor(h2) {
                            Some(a2) => Some(*a2),
                            None => None,
                        };
                        match other {
                            Some(a2) => {
                                proof {
                                    assert(state.actors.valid(h2));
                                    assert(h2 != h) by {
                                        if h2.index == h.index {
                                            state.actors.lemma_index_unique(h2, h);
                                        }
                                    }
                                    assert(h2.index != h.index) by {
                                        if h2.index == h.index {
                                            state.actors.lemma_index_unique(h2, h);
                                        }
                                    }
                                    assert(ks@.contains(h2));
                                    let j2 = choose|j2: int| 0 <= j2 < ks@.len() && ks@[j2] == h2;
                                    assert(j2 != i) by {
                                        if j2 == i {
                                            assert(ks@[i as int] == h);
                                        }
                                    }
                                    if j2 < i {
                                        assert(spec_physics_step_ok(
                                            old(state).actors.at(ks@[j2]),
                                            state.actors.at(ks@[j2]),
                                            *infos,
                                            dt as int,
                                        ));
                                        assert(ks@[j2].index < ks@[i as int].index);
                                    } else {
                                        assert(state.actors.at(ks@[j2]) == old(state).actors.at(
                                            ks@[j2],
                                        ));
                                        assert(ks@[i as int].index < ks@[j2].index);
                                    }
                                    assert(a2 == state.actors.at(h2));
                                    assert(a2.state.health == old(state).actors.at(
                                        h2,
                                    ).state.health && a2.info == old(state).actors.at(h2).info);
                                    assert(a2.state.pos == spec_blocker_pos(
                                        *old(state),
                                        *state,
                                        h,
                                        h2,
                                    ));
                                }
                                let solid2 = a2.is_solid(infos);
                                if solid2 {
                                    let vdir = a2.state.pos.sub(a.state.pos).normalize();
                                    let dp = vdir.dot(a.state.vel);
                                    if dp >= 0 {
                                        proof {
                                            assert(infos.actors@[a.info as int].wf(
                                                infos.images@.len() as int,
                                                infos.weapons@.len() as int,
                                            ));
                                            assert(infos.actors@[a2.info as int].wf(
                                                infos.images@.len() as int,
                                                infos.weapons@.len() as int,
                                            ));
                                        }
                                        let r1 = a.actor_info(infos).radius;
                                        let r2 = a2.actor_info(infos).radius;
                                        let ghost cand_pre = cand;
                                        let (newc, hit) = resolve_contact(
                                            cand,
                                            a2.state.pos,
                                            r1 + r2,
                                        );
                                        cand = newc;
                                        if hit {
                                            let ghost evs_pre = state.contact_events@;
                                            state.contact_events.push(
                                                ContactEvent::Actor { actor: h, other_actor: h2 },
                                            );
                                            proof {
                                                let ev = ContactEvent::Actor {
                                                    actor: h,
                                                    other_actor: h2,
                                                };
                                                assert(state.contact_events@ == evs_pre.push(ev));
                                                assert(spec_rsum(*old(state), *infos, h, h2)
                                                    == r1 + r2);
                                                assert(spec_event_ok(
                                                    *old(state),
                                                    *state,
                                                    ev,
                                                    *infos,
                                                )) by {
                                                    assert(spec_penetrates(
                                                        cand_pre,
                                                        a2.state.pos,
                                                        r1 + r2,
                                                    ) && cand_pre.in_bounds(POS_LIMIT as int));
                                                    assert(a2.state.pos == spec_blocker_pos(
                                                        *old(state),
                                                        *state,
                                                        h,
                                                        h2,
                                                    ));
                                                    assert(vdir == a2.state.pos.sub_spec(
                                                        a.state.pos,
                                                    ).spec_normalize());
                                                    assert(dp == vdir.spec_dot(a.state.vel));
                                                    assert(old(state).actors.at(h2).spec_is_solid(
                                                        *infos,
                                                    )) by {
                                                        assert(a2.spec_is_solid(*infos));
                                                    }
                                                }
                                                assert forall|k: int|
                                                    0 <= k < state.contact_events@.len() implies
                                                    spec_event_ok(
                                                    *old(state),
                                                    *state,
                                                    #[trigger] state.contact_events@[k],
                                                    *infos,
                                                ) by {
                                                    if k < evs_pre.len() {
                                                        assert(state.contact_events@[k]
                                                            == evs_pre[k]);
                                                    }
                                                }
                                                assert forall|k: int|
                                                    0 <= k < state.contact_events@.len() implies
                                                    spec_among(
                                                    ks@,
                                                    i + 1,
                                                    ev_mover(
                                                        #[trigger] state.contact_events@[k],
                                                    ),
                                                ) by {
                                                    if k < evs_pre.len() {
                                                        assert(state.contact_events@[k]
                                                            == evs_pre[k]);
                                                    } else {
                                                        assert(ks@[i as int] == h);
                                                    }
                                                }
                                                assert(events_entry =~= state.contact_events@.subrange(
                                                    0,
                                                    events_entry.len() as int,
                                                ));
                                                assert(state.contact_events@.contains(ev)) by {
                                                    assert(state.contact_events@[state.contact_events@.len()
                                                        - 1] == ev);
                                                }
                                            }
                                        }
                                        proof {
                                            if spec_pair_hot(*old(state), *state, *infos, h, h2) {
                                                assert(state.actors == st_loop.actors);
                                                assert(spec_blocker_pos(*old(state), *state, h, h2)
                                                    == spec_blocker_pos(*old(state), st_loop, h, h2));
                                                assert(spec_pair_hot(
                                                    *old(state),
                                                    st_loop,
                                                    *infos,
                                                    h,
                                                    h2,
                                                ));
                                                assert(!seen_pre.contains(h2));
                                                assert(cand_entry == cand_pre);
                                                assert(cand_entry == c0);
                                                assert(cand == spec_resolve(
                                                    c0,
                                                    spec_blocker_pos(*old(state), *state, h, h2),
                                                    spec_rsum(*old(state), *infos, h, h2),
                                                ));
                                                if spec_penetrates(
                                                    c0,
                                                    spec_blocker_pos(*old(state), *state, h, h2),
                                                    spec_rsum(*old(state), *infos, h, h2),
                                                ) {
                                                    assert(hit);
                                                    assert(state.contact_events@.contains(
                                                        ContactEvent::Actor {
                                                            actor: h,
                                                            other_actor: h2,
                                                        },
                                                    ));
                                                }
                                            }
                                            if spec_solo_config(*old(state), h) {
                                                assert(old(state).actors.valid(h2));
                                                assert(h2 == h);
                                                assert(false);
                                            }
                                        }
                                    } else {
                                        proof {
                                            if spec_pair_hot(*old(state), *state, *infos, h, h2) {
                                                assert(spec_blocker_pos(
                                                    *old(state),
                                                    *state,
                                                    h,
                                                    h2,
                                                ).sub_spec(a.state.pos).spec_normalize().spec_dot(
                                                    a.state.vel,
                                                ) >= 0);
                                                assert(false);
                                            }
                                        }
                                    }
                                } else {
                                    proof {
                                        if spec_pair_hot(*old(state), *state, *infos, h, h2) {
                                            assert(old(state).actors.at(h2).spec_is_solid(
                                                *infos,
                                            ));
                                            assert(a2.spec_is_solid(*infos));
                                            assert(false);
                                        }
                                    }
                                }
                            },
                            None => {
                                proof {
                                    if spec_pair_hot(*old(state), *state, *infos, h, h2) {
                                        assert(old(state).actors.valid(h2));
                                        assert(state.actors.valid(h2));
                                        assert(false);
                                    }
                                }
                            },
                        }
                        proof {
                            assert forall|b: Handle|
                                #[trigger] spec_pair_hot(*old(state), *state, *infos, h, b)
                                implies ((seen@.contains(b) ==> cand == spec_resolve(
                                c0,
                                spec_blocker_pos(*old(state), *state, h, b),
                                spec_rsum(*old(state), *infos, h, b),
                            ) && (spec_penetrates(
                                c0,
                                spec_blocker_pos(*old(state), *state, h, b),
                                spec_rsum(*old(state), *infos, h, b),
                            ) ==> state.contact_events@.contains(
                                ContactEvent::Actor { actor: h, other_actor: b },
                            ))) && (!seen@.contains(b) ==> cand == c0)) by {
                                assert(seen@ == seen_pre.push(h2));
                                if b == h2 {
                                    assert(seen@[seen@.len() - 1] == h2);
                                    assert(seen@.contains(b));
                                } else {
                                    assert(seen@.contains(b) == seen_pre.contains(b)) by {
                                        if seen@.contains(b) {
                                            let w = choose|w: int|
                                                0 <= w < seen@.len() && seen@[w] == b;
                                            assert(w < seen_pre.len());
                                            assert(seen_pre[w] == b);
                                        }
                                        if seen_pre.contains(b) {
                                            let w = choose|w: int|
                                                0 <= w < seen_pre.len() && seen_pre[w] == b;
                                            assert(seen@[w] == b);
                                        }
                                    }
                                    assert(b != h2 && b != h ==> !state.actors.valid(h2) || h2
                                        == h || h2 == b || !old(state).actors.valid(h2));
                                    if state.actors.valid(h2) {
                                        assert(old(state).actors.valid(h2));
                                        assert(h2 == h || h2 == b);
                                        assert(h2 == b);
                                        assert(false);
                                    } else {
                                        assert(other is None);
                                        assert(cand == cand_entry);
                                        assert(state.contact_events@ == evs_entry2);
                                        assert(state.actors == st_loop.actors);
                                        assert(spec_blocker_pos(*old(state), *state, h, b)
                                            == spec_blocker_pos(*old(state), st_loop, h, b));
                                        assert(spec_pair_hot(*old(state), st_loop, *infos, h, b));
                                        if seen_pre.contains(b) {
                                            assert(cand_entry == spec_resolve(
                                                c0,
                                                spec_blocker_pos(*old(state), st_loop, h, b),
                                                spec_rsum(*old(state), *infos, h, b),
                                            ));
                                            if spec_penetrates(
                                                c0,
                                                spec_blocker_pos(*old(state), st_loop, h, b),
                                                spec_rsum(*old(state), *infos, h, b),
                                            ) {
                                                assert(evs_entry2.contains(
                                                    ContactEvent::Actor {
                                                        actor: h,
                                                        other_actor: b,
                                                    },
                                                ));
                                            }
                                        } else {
                                            assert(cand_entry == c0);
                                        }
                                    }
                                }
                            }
                        }
                        proof {
                            assert forall|idx: int|
                                0 <= idx < qi + 1 implies q@[idx] == h || #[trigger] seen@.contains(
                                q@[idx],
                            ) by {
                                if idx < qi {
                                    if q@[idx] != h {
                                        assert(seen_pre.contains(q@[idx]));
                                        let w = choose|w: int|
                                            0 <= w < seen_pre.len() && seen_pre[w] == q@[idx];
                                        assert(seen@[w] == q@[idx]);
                                    }
                                } else {
                                    assert(seen@[seen@.len() - 1] == h2);
                                }
                            }
                        }
                        proof {
                            assert(state.actors == st_loop.actors);
                            assert(state.contact_events@ == evs_entry2 || exists|ev2: ContactEvent|
                                state.contact_events@ == evs_entry2.push(ev2));
                            assert forall|hp: Handle, bp: Handle|
                                #[trigger] spec_pair_hot(*old(state), *state, *infos, hp, bp)
                                    && spec_among(ks@, i as int, hp) implies spec_pair_done(
                                *old(state),
                                *state,
                                *infos,
                                dt as int,
                                hp,
                                bp,
                            ) by {
                                assert(spec_blocker_pos(*old(state), *state, hp, bp)
                                    == spec_blocker_pos(*old(state), st_loop, hp, bp));
                                assert(spec_pair_hot(*old(state), st_loop, *infos, hp, bp));
                                assert(spec_pair_done(*old(state), st_loop, *infos, dt as int, hp, bp));
                                assert(state.actors.at(hp) == st_loop.actors.at(hp));
                                let c0p = spec_step_pos(
                                    old(state).actors.at(hp).state.pos,
                                    old(state).actors.at(hp).state.vel,
                                    dt as int,
                                );
                                if spec_penetrates(
                                    c0p,
                                    spec_blocker_pos(*old(state), *state, hp, bp),
                                    spec_rsum(*old(state), *infos, hp, bp),
                                ) {
                                    let evp = ContactEvent::Actor { actor: hp, other_actor: bp };
                                    assert(evs_entry2.contains(evp));
                                    let w = choose|w: int|
                                        0 <= w < evs_entry2.len() && evs_entry2[w] == evp;
                                    assert(state.contact_events@[w] == evp);
                                }
                            }
                        }
                    } else {
                        proof {
                            assert forall|idx: int|
                                0 <= idx < qi + 1 implies q@[idx] == h || #[trigger] seen@.contains(
                                q@[idx],
                            ) by {}
                        }
                    }
                    qi = qi + 1;
                }
                proof {
                    assert forall|b: Handle|
                        #[trigger] spec_pair_hot(*old(state), *state, *infos, h, b) implies cand
                        == spec_resolve(
                        c0,
                        spec_blocker_pos(*old(state), *state, h, b),
                        spec_rsum(*old(state), *infos, h, b),
                    ) && (spec_penetrates(
                        c0,
                        spec_blocker_pos(*old(state), *state, h, b),
                        spec_rsum(*old(state), *infos, h, b),
                    ) ==> state.contact_events@.contains(
                        ContactEvent::Actor { actor: h, other_actor: b },
                    )) by {
                        assert(old(state).actors.valid(b));
                        assert(ks@.contains(b));
                        let jb = choose|jb: int| 0 <= jb < ks@.len() && ks@[jb] == b;
                        assert(spatial.entries@[jb] == (
                            ks@[jb],
                            old(state).actors.at(ks@[jb]).state.pos,
                        ));
                        assert(crate::spatial::within_square(
                            old(state).actors.at(b).state.pos,
                            a.state.pos,
                            LOOKAHEAD as int,
                        ));
                        assert(q@.contains(spatial.entries@[jb].0));
                        assert(q@.contains(b));
                        let idxb = choose|idxb: int| 0 <= idxb < q@.len() && q@[idxb] == b;
                        assert(q@[idxb] == h || seen@.contains(q@[idxb]));
                        assert(b != h);
                        assert(seen@.contains(b));
                    }
                }
            }
            let mut updated = a;
            updated.state.pos = cand;
            proof {
                assert(updated.wf(*infos));
            }
            let ghost pre = *state;
            let _ = state.set_actor(h, updated);
            proof {
                assert forall|j: int|
                    0 <= j < ks@.len() && j != i implies #[trigger] state.actors.at(ks@[j])
                    == pre.actors.at(ks@[j]) by {
                    if ks@[j].index == h.index {
                        pre.actors.lemma_index_unique(ks@[j], h);
                        assert(j == i);
                    }
                }
                assert forall|k: int|
                    0 <= k < state.contact_events@.len() implies spec_event_ok(
                    *old(state),
                    *state,
                    #[trigger] state.contact_events@[k],
                    *infos,
                ) by {
                    let ev = state.contact_events@[k];
                    assert(spec_event_ok(*old(state), pre, ev, *infos));
                    assert(spec_among(ks@, i + 1, ev_mover(ev)));
                    let jm = choose|jm: int| 0 <= jm < i + 1 && ks@[jm] == ev_mover(ev);
                    match ev {
                        ContactEvent::Actor { actor, other_actor } => {
                            assert(actor == ks@[jm]);
                            if other_actor.index < actor.index {
                                assert(actor.index <= h.index) by {
                                    if jm < i {
                                        assert(ks@[jm].index < ks@[i as int].index);
                                    }
                                }
                                assert(other_actor.index != h.index);
                                assert(state.actors.at(other_actor) == pre.actors.at(
                                    other_actor,
                                ));
                                assert(spec_blocker_pos(*old(state), *state, actor, other_actor)
                                    == spec_blocker_pos(*old(state), pre, actor, other_actor));
                            }
                        },
                    }
                }
                assert forall|hp: Handle, bp: Handle|
                    #[trigger] spec_pair_hot(*old(state), *state, *infos, hp, bp) && spec_among(
                        ks@,
                        i + 1,
                        hp,
                    ) implies spec_pair_done(*old(state), *state, *infos, dt as int, hp, bp) by {
                    assert(old(state).actors.valid(hp) && old(state).actors.valid(bp));
                    if hp == h {
                        assert(state.actors.at(h) == updated);
                        assert(bp != h);
                        if bp.index == h.index {
                            pre.actors.lemma_index_unique(bp, h);
                            assert(false);
                        }
                        assert(state.actors.at(bp) == pre.actors.at(bp));
                        assert(spec_blocker_pos(*old(state), *state, h, bp) == spec_blocker_pos(
                            *old(state),
                            pre,
                            h,
                            bp,
                        ));
                        assert(spec_pair_hot(*old(state), pre, *infos, h, bp));
                    } else {
                        assert(spec_among(ks@, i as int, hp)) by {
                            let jp = choose|jp: int| 0 <= jp < i + 1 && ks@[jp] == hp;
                            assert(jp != i) by {
                                if jp == i {
                                    assert(ks@[i as int] == h);
                                }
                            }
                        }
                        if hp.index == h.index {
                            pre.actors.lemma_index_unique(hp, h);
                            assert(false);
                        }
                        assert(state.actors.at(hp) == pre.actors.at(hp));
                        if bp.index == h.index {
                            pre.actors.lemma_index_unique(bp, h);
                            assert(bp == h);
                            assert(spec_pair_config(*old(state), hp, bp));
                            assert(old(state).actors.valid(h));
                            assert(h == hp || h == bp);
                        }
                        assert(spec_blocker_pos(*old(state), *state, hp, bp) == spec_blocker_pos(
                            *old(state),
                            pre,
                            hp,
                            bp,
                        ) || bp == h) by {
                            if bp != h {
                                if bp.index == h.index {
                                    pre.actors.lemma_index_unique(bp, h);
                                    assert(false);
                                }
                                assert(state.actors.at(bp) == pre.actors.at(bp));
                            }
                        }
                        if bp == h {
                            assert(spec_blocker_pos(*old(state), *state, hp, bp) == if bp.index
                                < hp.index {
                                state.actors.at(bp).state.pos
                            } else {
                                old(state).actors.at(bp).state.pos
                            });
                            if bp.index < hp.index {
                                let jp = choose|jp: int| 0 <= jp < i && ks@[jp] == hp;
                                assert(ks@[i as int].index < ks@[jp].index) by {
                                    if i < jp {
                                    } else {
                                        assert(jp < i);
                                        assert(ks@[jp].index < ks@[i as int].index);
                                        assert(false);
                                    }
                                }
                                assert(false);
                            }
                            assert(spec_blocker_pos(*old(state), *state, hp, bp)
                                == spec_blocker_pos(*old(state), pre, hp, bp));
                            assert(spec_pair_hot(*old(state), pre, *infos, hp, bp));
                        } else {
                            assert(spec_pair_hot(*old(state), pre, *infos, hp, bp));
                        }
                        assert(spec_pair_done(*old(state), pre, *infos, dt as int, hp, bp));
                        assert(state.actors.at(hp) == pre.actors.at(hp));
                    }
                }
                assert forall|hs: Handle|
                    spec_solo_config(*old(state), hs) && old(state).actors.at(hs).state.vel != (
                    Vec2 { x: 0i64, y: 0i64 }) && spec_among(ks@, i + 1, hs) implies
                    #[trigger] state.actors.at(hs).state.pos == spec_step_pos(
                    old(state).actors.at(hs).state.pos,
                    old(state).actors.at(hs).state.vel,
                    dt as int,
                ) by {
                    if hs == h {
                        assert(state.actors.at(h) == updated);
                    } else {
                        assert(old(state).actors.valid(h));
                        assert(h == hs);
                    }
                }
            }
        } else {
            proof {
                assert forall|hs: Handle|
                    spec_solo_config(*old(state), hs) && old(state).actors.at(hs).state.vel != (
                    Vec2 { x: 0i64, y: 0i64 }) && spec_among(ks@, i + 1, hs) implies
                    #[trigger] state.actors.at(hs).state.pos == spec_step_pos(
                    old(state).actors.at(hs).state.pos,
                    old(state).actors.at(hs).state.vel,
                    dt as int,
                ) by {
                    if hs == h {
                        assert(a.state.vel == (Vec2 { x: 0i64, y: 0i64 }));
                        assert(false);
                    } else {
                        assert(old(state).actors.valid(h));
                        assert(h == hs);
                    }
                }
                assert forall|hp: Handle, bp: Handle|
                    #[trigger] spec_pair_hot(*old(state), *state, *infos, hp, bp) && spec_among(
                        ks@,
                        i + 1,
                        hp,
                    ) implies spec_pair_done(*old(state), *state, *infos, dt as int, hp, bp) by {
                    if hp == h {
                        assert(old(state).actors.at(h).state.vel != (Vec2 { x: 0i64, y: 0i64 }));
                        assert(false);
                    } else {
                        assert(spec_among(ks@, i as int, hp)) by {
                            let jp = choose|jp: int| 0 <= jp < i + 1 && ks@[jp] == hp;
                            assert(jp != i) by {
                                if jp == i {
                                    assert(ks@[i as int] == h);
                                }
                            }
                        }
                    }
                }
            }
        }
        i = i + 1;
    }
    proof {
        assert forall|h: Handle| old(state).actors.valid(h) implies spec_physics_step_ok(
            old(state).actors.at(h),
            #[trigger] state.actors.at(h),
            *infos,
            dt as int,
        ) by {
            assert(ks@.contains(h));
            let j = choose|j: int| 0 <= j < ks@.len() && ks@[j] == h;
        }
        assert forall|h: Handle|
            spec_solo_config(*old(state), h) && old(state).actors.at(h).state.vel != (Vec2 {
                x: 0i64,
                y: 0i64,
            }) implies #[trigger] state.actors.at(h).state.pos == spec_step_pos(
            old(state).actors.at(h).state.pos,
            old(state).actors.at(h).state.vel,
            dt as int,
        ) by {
            assert(ks@.contains(h));
            let j = choose|j: int| 0 <= j < ks@.len() && ks@[j] == h;
            assert(spec_among(ks@, n as int, h));
        }
        assert forall|h: Handle, b: Handle|
            #[trigger] spec_pair_hot(*old(state), *state, *infos, h, b) implies spec_pair_done(
            *old(state),
            *state,
            *infos,
            dt as int,
            h,
            b,
        ) by {
            assert(old(state).actors.valid(h));
            assert(ks@.contains(h));
            let j = choose|j: int| 0 <= j < ks@.len() && ks@[j] == h;
            assert(spec_among(ks@, n as int, h));
        }
    }
}

/// The mover of a contact event.
pub open spec fn ev_mover(ev: ContactEvent) -> Handle {
    match ev {
        ContactEvent::Actor { actor, other_actor } => actor,
    }
}

/// Keeps the player inside the world bounds: the player actor's position is
/// clamped into the bounds rectangle; everyone else is untouched.
pub fn player_bounds(state: &mut State, infos: &Infos)
    requires
        old(state).wf(*infos),
        infos.wf(),
    ensures
        final(state).wf(*infos),
        forall|h: Handle|
            #[trigger] final(state).actors.valid(h) <==> old(state).actors.valid(h),
        old(state).actors.valid(old(state).me) ==> final(state).actors.at(old(state).me) == (Actor {
            state: ActorState {
                pos: Vec2 {
                    x: spec_clamp(
                        old(state).actors.at(old(state).me).state.pos.x as int,
                        old(state).bounds.left as int,
                        old(state).bounds.left + old(state).bounds.width,
                    ) as i64,
                    y: spec_clamp(
                        old(state).actors.at(old(state).me).state.pos.y as int,
                        old(state).bounds.top as int,
                        old(state).bounds.top + old(state).bounds.height,
                    ) as i64,
                },
                ..old(state).actors.at(old(state).me).state
            },
            ..old(state).actors.at(old(state).me)
        }),
        forall|h: Handle|
            h != old(state).me && old(state).actors.valid(h)
                ==> #[trigger] final(state).actors.at(h) == old(state).actors.at(h),
        !old(state).actors.valid(old(state).me) ==> final(state).actors == old(state).actors,
        final(state).spawner == old(state).spawner,
        final(state).me == old(state).me,
        final(state).contact_events == old(state).contact_events,
        final(state).round == old(state).round,
        final(state).game_state == old(state).game_state,
        final(state).bounds == old(state).bounds,
{
    let me = state.me;
    let b = state.bounds;
    let right = b.right();
    let bottom = b.bottom();
    let a = match state.actor(me) {
        Some(a) => *a,
        None => {
            return ;
        },
    };
    let mut updated = a;
    updated.state.pos = Vec2 {
        x: clamp_i64(a.state.pos.x, b.left, right),
        y: clamp_i64(a.state.pos.y, b.top, bottom),
    };
    let ghost pre = *state;
    let _ = state.set_actor(me, updated);
    proof {
        assert forall|h: Handle| h != me && pre.actors.valid(h) implies #[trigger] state.actors.at(
            h,
        ) == pre.actors.at(h) by {
            if h.index == me.index {
                pre.actors.lemma_index_unique(h, me);
            }
        }
    }
}


/// Collision resolution never leaves two solid discs overlapping after a
/// head-on tick: one actor at `ax` moving right at `va`, another at `bx`
/// moving left at `vb`, starting separated by more than the radii sum and
/// closing by less than their gap this tick.  After the mover integrates and
/// resolves against the blocker, and the blocker integrates and resolves
/// against the mover's settled position, the two centers are again at least
/// the radii sum apart.
#[verifier::spinoff_prover]
pub proof fn lemma_head_on_resolution(
    ax: i64,
    bx: i64,
    va: i64,
    vb: i64,
    r1: i64,
    r2: i64,
    dt: i64,
)
    requires
        -100_000_000 <= ax < bx <= 100_000_000,
        0 <= va <= VEL_LIMIT,
        0 <= vb <= VEL_LIMIT,
        0 < dt <= MAX_DT,
        0 <= r1 <= 1_000_000,
        0 <= r2 <= 1_000_000,
        0 < r1 + r2,
        bx - ax > r1 + r2,
        sdiv(va * dt, 1000) + sdiv(vb * dt, 1000) < bx - ax,
    ensures
        ({
            let a0 = Vec2 { x: ax, y: 0 };
            let b0 = Vec2 { x: bx, y: 0 };
            let rsum = r1 + r2;
            let a1 = spec_resolve(spec_step_pos(a0, Vec2 { x: va, y: 0 }, dt as int), b0, rsum as int);
            let b1 = spec_resolve(
                spec_step_pos(b0, Vec2 { x: (-vb) as i64, y: 0 }, dt as int),
                a1,
                rsum as int,
            );
            b1.x - a1.x >= r1 + r2 && a1.y == 0 && b1.y == 0
        }),
{
    let a0 = Vec2 { x: ax, y: 0 };
    let b0 = Vec2 { x: bx, y: 0 };
    let rsum = (r1 + r2) as int;
    let ma = sdiv(va * dt, 1000);
    let mb = sdiv(vb * dt, 1000);
    crate::fixed::lemma_mul_bound(va as int, dt as int, VEL_LIMIT as int, MAX_DT as int);
    crate::fixed::lemma_mul_bound(vb as int, dt as int, VEL_LIMIT as int, MAX_DT as int);
    crate::fixed::lemma_sdiv_bound(va * dt, 1000, 1_000_000_000_000);
    crate::fixed::lemma_sdiv_bound(vb * dt, 1000, 1_000_000_000_000);
    vstd::arithmetic::div_mod::lemma_div_pos_is_pos(va * dt, 1000);
    vstd::arithmetic::div_mod::lemma_div_pos_is_pos(vb * dt, 1000);
    vstd::arithmetic::div_mod::lemma_div_is_ordered(va * dt, 1_000_000_000, 1000);
    vstd::arithmetic::div_mod::lemma_div_is_ordered(vb * dt, 1_000_000_000, 1000);
    assert(0 <= ma <= 1_000_000 && 0 <= mb <= 1_000_000) by {
        vstd::arithmetic::div_mod::lemma_div_multiples_vanish(1_000_000, 1000);
    }
    let moved_a = (Vec2 { x: va, y: 0 }).spec_scale_div(dt as int, 1000);
    assert(moved_a.x == ma && moved_a.y == 0) by {
        assert((0int) * (dt as int) == 0) by (nonlinear_arith);
        assert(sdiv(0, 1000) == 0);
    }
    let ac = spec_step_pos(a0, Vec2 { x: va, y: 0 }, dt as int);
    assert(ac.x == spec_clamp(ax + ma, -POS_LIMIT as int, POS_LIMIT as int) as i64);
    assert(ac == Vec2 { x: (ax + ma) as i64, y: 0i64 });
    let acx = ax + ma;
    assert(acx < bx);
    let a1 = spec_resolve(ac, b0, rsum);
    let d1v = ac.sub_spec(b0);
    assert(d1v == Vec2 { x: (acx - bx) as i64, y: 0i64 });
    let gap1 = bx - acx;
    lemma_axis_len(acx - bx);
    assert(d1v.spec_len() == gap1);
    if gap1 < rsum {
        lemma_axis_resolve_left(ac, b0, rsum);
        assert(a1 == Vec2 { x: (bx - rsum) as i64, y: 0i64 });
    } else {
        assert(a1 == ac);
    }
    assert(a1.y == 0);
    assert(a1.x <= acx && bx - a1.x >= rsum) by {
        if gap1 < rsum {
        } else {
        }
    }
    let moved_b = (Vec2 { x: (-vb) as i64, y: 0 }).spec_scale_div(dt as int, 1000);
    let bc = spec_step_pos(b0, Vec2 { x: (-vb) as i64, y: 0 }, dt as int);
    assert(sdiv((-vb) * dt, 1000) == -mb) by {
        assert((-vb) * (dt as int) == -(vb * dt)) by (nonlinear_arith);
    }
    assert(moved_b.x == -mb && moved_b.y == 0) by {
        assert((0int) * (dt as int) == 0) by (nonlinear_arith);
        assert(sdiv(0, 1000) == 0);
    }
    assert(bc.x == spec_clamp(bx - mb, -POS_LIMIT as int, POS_LIMIT as int) as i64);
    assert(bc == Vec2 { x: (bx - mb) as i64, y: 0i64 });
    let bcx = bx - mb;
    assert(bcx > acx);
    assert(bcx > a1.x);
    let b1 = spec_resolve(bc, a1, rsum);
    let d2v = bc.sub_spec(a1);
    let gap2 = bcx - a1.x;
    lemma_axis_len(gap2);
    assert(d2v == Vec2 { x: gap2 as i64, y: 0i64 });
    assert(d2v.spec_len() == gap2);
    if gap2 < rsum {
        lemma_axis_resolve_right(bc, a1, rsum);
        assert(b1 == Vec2 { x: (a1.x + rsum) as i64, y: 0i64 });
    } else {
        assert(b1 == bc);
    }
}

/// The length of an axis-aligned vector is the magnitude of its one
/// component.
proof fn lemma_axis_len(dx: int)
    requires
        -2_000_000_000 <= dx <= 2_000_000_000,
    ensures
        (Vec2 { x: dx as i64, y: 0i64 }).spec_len() == abs_i(dx),
{
    let v = Vec2 { x: dx as i64, y: 0i64 };
    assert(v.norm2() == dx * dx);
    assert(dx * dx == abs_i(dx) * abs_i(dx)) by (nonlinear_arith);
    crate::fixed::lemma_sqrt_floor_square(abs_i(dx));
}

/// Resolving a penetrating candidate that sits to the left of the blocker
/// on the x axis lands it exactly one radii sum to the blocker's left.
proof fn lemma_axis_resolve_left(cand: Vec2, other: Vec2, rsum: int)
    requires
        cand.y == other.y == 0,
        -200_000_000 <= cand.x < other.x <= 200_000_000,
        0 < rsum <= 2_000_000,
        other.x - cand.x < rsum,
    ensures
        spec_resolve(cand, other, rsum) == (Vec2 { x: (other.x - rsum) as i64, y: 0i64 }),
{
    let delta = cand.sub_spec(other);
    let gap = other.x - cand.x;
    lemma_axis_len(-gap);
    assert(delta.spec_len() == gap);
    let n = delta.spec_normalize();
    assert(delta.x == -gap && delta.y == 0);
    assert(n.x == sdiv(delta.x * 1000, gap) && n.y == sdiv(0int * 1000, gap));
    assert(sdiv((-gap) * 1000, gap) == -1000) by {
        assert((-gap) * 1000 == -(gap * 1000)) by (nonlinear_arith);
        assert((gap * 1000) / gap == 1000) by {
            vstd::arithmetic::div_mod::lemma_div_multiples_vanish(1000, gap);
        }
    }
    assert(sdiv(0int * 1000, gap) == 0) by {
        vstd::arithmetic::div_mod::lemma_div_pos_is_pos(0int, gap);
        vstd::arithmetic::div_mod::lemma_div_nonincreasing(0int, gap);
    }
    let push = n.spec_scale_div(rsum - gap, 1000);
    assert(push.x == sdiv((-1000) * (rsum - gap), 1000) && push.y == sdiv(0int * (rsum - gap), 1000));
    assert(sdiv((-1000) * (rsum - gap), 1000) == -(rsum - gap)) by {
        assert((-1000) * (rsum - gap) == -(1000 * (rsum - gap))) by (nonlinear_arith);
        assert((1000 * (rsum - gap)) / 1000 == rsum - gap) by {
            vstd::arithmetic::div_mod::lemma_div_multiples_vanish(rsum - gap, 1000);
        }
    }
    assert(sdiv(0int * (rsum - gap), 1000) == 0) by {
        assert(0int * (rsum - gap) == 0) by (nonlinear_arith);
        vstd::arithmetic::div_mod::lemma_div_pos_is_pos(0int, 1000);
        vstd::arithmetic::div_mod::lemma_div_nonincreasing(0int, 1000);
    }
    assert(cand.x + push.x == other.x - rsum);
}

/// Resolving a penetrating candidate that sits to the right of the blocker
/// on the x axis lands it exactly one radii sum to the blocker's right.
proof fn lemma_axis_resolve_right(cand: Vec2, other: Vec2, rsum: int)
    requires
        cand.y == other.y == 0,
        -200_000_000 <= other.x < cand.x <= 200_000_000,
        0 < rsum <= 2_000_000,
        cand.x - other.x < rsum,
    ensures
        spec_resolve(cand, other, rsum) == (Vec2 { x: (other.x + rsum) as i64, y: 0i64 }),
{
    let delta = cand.sub_spec(other);
    let gap = cand.x - other.x;
    lemma_axis_len(gap);
    assert(delta.spec_len() == gap);
    let n = delta.spec_normalize();
    assert(delta.x == gap && delta.y == 0);
    assert(n.x == sdiv(gap * 1000, gap) && n.y == sdiv(0int * 1000, gap));
    assert(sdiv(gap * 1000, gap) == 1000) by {
        vstd::arithmetic::div_mod::lemma_div_multiples_vanish(1000, gap);
    }
    assert(sdiv(0int * 1000, gap) == 0) by {
        vstd::arithmetic::div_mod::lemma_div_pos_is_pos(0int, gap);
        vstd::arithmetic::div_mod::lemma_div_nonincreasing(0int, gap);
    }
    let push = n.spec_scale_div(rsum - gap, 1000);
    assert(push.x == sdiv(1000 * (rsum - gap), 1000) && push.y == sdiv(0int * (rsum - gap), 1000));
    assert(sdiv(1000 * (rsum - gap), 1000) == rsum - gap) by {
        vstd::arithmetic::div_mod::lemma_div_multiples_vanish(rsum - gap, 1000);
    }
    assert(sdiv(0int * (rsum - gap), 1000) == 0) by {
        assert(0int * (rsum - gap) == 0) by (nonlinear_arith);
        vstd::arithmetic::div_mod::lemma_div_pos_is_pos(0int, 1000);
        vstd::arithmetic::div_mod::lemma_div_nonincreasing(0int, 1000);
    }
    assert(cand.x + push.x == other.x + rsum);
}

} // verus!
