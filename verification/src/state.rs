//! The mutable simulation state: timers, actor records, the arena that owns
//! them, contact events and the round state machine's data.

use vstd::prelude::*;

use crate::arena::{Arena, Handle};
use crate::fixed::{
    spec_clamp, HEALTH_LIMIT, MAX_DT, POS_LIMIT, SCALE, TIME_LIMIT, VEL_LIMIT,
};
use crate::infos::{ActorInfo, Infos};
use crate::vec2::Vec2;

verus! {

/// Lowest health (milli-points) a record can reach; damage saturates here.
pub const HEALTH_FLOOR: i64 = -1_000_000_000_000;

/// Largest animation frame counter (milli-frames); advancing saturates here.
pub const FRAME_LIMIT: i64 = 1_000_000_000_000;

/// Largest round number; a finished countdown saturates here.
pub const ROUND_CAP: u32 = 60_000;

/// The countdown before a round starts, in milliseconds.
pub const COUNTDOWN_MS: i64 = 5000;

/// The wait after the player dies before a respawn is offered, in
/// milliseconds.
pub const RESPAWN_WAIT_MS: i64 = 1000;

/// The length of the pain flash window, in milliseconds.
pub const PAIN_FLASH_MS: i64 = 250;

/// Color scale: a fully saturated channel.
pub const COLOR_SCALE: i64 = 1000;

/// A timer that runs from zero up to its end time and then stays there.
#[derive(Clone, Copy, PartialEq, Eq, Structural, Debug)]
pub struct Timer {
    pub timer: i64,
    pub end_time: i64,
}

impl Timer {
    /// The timer is within its range.
    pub open spec fn wf(self) -> bool {
        0 <= self.timer <= self.end_time <= TIME_LIMIT
    }

    /// A timer that is already done.
    pub fn new(end_time: i64) -> (r: Timer)
        requires
            0 <= end_time <= TIME_LIMIT,
        ensures
            r == (Timer { timer: end_time, end_time }),
            r.wf(),
            r.spec_is_done(),
    {
        Timer { timer: end_time, end_time }
    }

    /// A timer at the beginning of its run.
    pub fn start(end_time: i64) -> (r: Timer)
        requires
            0 <= end_time <= TIME_LIMIT,
        ensures
            r == (Timer { timer: 0i64, end_time }),
            r.wf(),
    {
        Timer { timer: 0, end_time }
    }

    /// The time still to run.
    pub fn time_left(&self) -> (r: i64)
        requires
            self.wf(),
        ensures
            r == self.end_time - self.timer,
    {
        self.end_time - self.timer
    }

    /// Rewinds to zero with a fresh end time.
    pub fn restart(&mut self, end_time: i64)
        requires
            0 <= end_time <= TIME_LIMIT,
        ensures
            *final(self) == (Timer { timer: 0i64, end_time }),
            final(self).wf(),
    {
        self.timer = 0;
        self.end_time = end_time;
    }

    /// Advances by `dt`, clamping at the end time; reports whether the end
    /// was reached.
    pub fn tick(&mut self, dt: i64) -> (done: bool)
        requires
            old(self).wf(),
            0 <= dt <= MAX_DT,
        ensures
            final(self).end_time == old(self).end_time,
            final(self).timer == spec_clamp(
                old(self).timer + dt,
                0,
                old(self).end_time as int,
            ),
            done == (final(self).timer == final(self).end_time),
            final(self).wf(),
    {
        let next = self.timer + dt;
        if next >= self.end_time {
            self.timer = self.end_time;
            true
        } else {
            self.timer = next;
            false
        }
    }

    /// The timer has reached its end.
    pub open spec fn spec_is_done(self) -> bool {
        self.timer == self.end_time
    }

    /// Whether the timer has reached its end.
    pub fn is_done(&self) -> (r: bool)
        ensures
            r == self.spec_is_done(),
    {
        self.timer == self.end_time
    }

    /// Progress from `0` to `COLOR_SCALE`; a zero-length timer reports zero.
    pub open spec fn spec_alpha(self) -> int {
        if self.end_time == 0 {
            0
        } else {
            (self.timer as int * COLOR_SCALE) / (self.end_time as int)
        }
    }

    /// Computes the progress fraction, scaled by `COLOR_SCALE`.
    pub fn alpha(&self) -> (r: i64)
        requires
            self.wf(),
        ensures
            r == self.spec_alpha(),
            0 <= r <= COLOR_SCALE,
    {
        if self.end_time == 0 {
            0
        } else {
            let num = self.timer * 1000;
            let q = (num as u64 / self.end_time as u64) as i64;
            proof {
                let t = self.timer as int;
                let e = self.end_time as int;
                vstd::arithmetic::div_mod::lemma_div_pos_is_pos(t * 1000, e);
                vstd::arithmetic::div_mod::lemma_div_is_ordered(t * 1000, e * 1000, e);
                vstd::arithmetic::div_mod::lemma_div_multiples_vanish(1000, e);
            }
            q
        }
    }
}

/// A clock that accumulates time and resets when told.
#[derive(Clone, Copy, PartialEq, Eq, Structural, Debug)]
pub struct Clock {
    pub tick: i64,
}

impl Clock {
    /// The clock is within its range.
    pub open spec fn wf(self) -> bool {
        0 <= self.tick <= TIME_LIMIT
    }

    /// Advances by `dt`; past `reset_at` the clock wraps to zero and reports
    /// it.
    pub fn tick(&mut self, dt: i64, reset_at: i64) -> (wrapped: bool)
        requires
            old(self).wf(),
            0 <= dt <= MAX_DT,
            0 <= reset_at <= TIME_LIMIT,
        ensures
            wrapped == (old(self).tick + dt > reset_at),
            final(self).tick == if old(self).tick + dt > reset_at {
                0
            } else {
                old(self).tick + dt
            },
            final(self).wf(),
    {
        let next = self.tick + dt;
        if next > reset_at {
            self.tick = 0;
            true
        } else {
            self.tick = next;
            false
        }
    }
}

/// A weapon's heat: zero means ready to fire.
#[derive(Clone, Copy, PartialEq, Eq, Structural, Debug)]
pub struct Cooldown {
    pub heat: i64,
}

impl Cooldown {
    /// The cooldown is within its range.
    pub open spec fn wf(self) -> bool {
        0 <= self.heat <= TIME_LIMIT
    }

    /// Cools by `dt`, clamping at zero.
    pub fn tick(&mut self, dt: i64)
        requires
            old(self).wf(),
            0 <= dt <= MAX_DT,
        ensures
            final(self).heat == if old(self).heat - dt < 0 {
                0int
            } else {
                old(self).heat - dt
            },
            final(self).wf(),
    {
        if self.heat < dt {
            self.heat = 0;
        } else {
            self.heat = self.heat - dt;
        }
    }

    /// Fires if cold: heats up and reports success, else reports failure and
    /// stays as it is.
    pub fn activate(&mut self, heat: i64) -> (fired: bool)
        requires
            old(self).wf(),
            0 <= heat <= TIME_LIMIT,
        ensures
            fired == (old(self).heat == 0),
            final(self).heat == if old(self).heat == 0 {
                heat
            } else {
                old(self).heat
            },
            final(self).wf(),
    {
        if self.heat == 0 {
            self.heat = heat;
            true
        } else {
            false
        }
    }
}

/// An RGBA tint with `COLOR_SCALE` as full saturation.
#[derive(Clone, Copy, PartialEq, Eq, Structural, Debug)]
pub struct Color {
    pub r: i64,
    pub g: i64,
    pub b: i64,
    pub a: i64,
}

impl Color {
    /// All channels are within the color scale.
    pub open spec fn wf(self) -> bool {
        &&& 0 <= self.r <= COLOR_SCALE
        &&& 0 <= self.g <= COLOR_SCALE
        &&& 0 <= self.b <= COLOR_SCALE
        &&& 0 <= self.a <= COLOR_SCALE
    }

    /// Opaque white: the neutral tint.
    pub fn white() -> (c: Color)
        ensures
            c == (Color { r: COLOR_SCALE, g: COLOR_SCALE, b: COLOR_SCALE, a: COLOR_SCALE }),
    {
        Color { r: COLOR_SCALE, g: COLOR_SCALE, b: COLOR_SCALE, a: COLOR_SCALE }
    }
}

/// The mutable per-actor simulation state.
#[derive(Clone, Copy, PartialEq, Eq, Structural, Debug)]
pub struct ActorState {
    /// Time until the weapon may fire again (milliseconds).
    pub weapon_cooldown: i64,
    /// Position (milli-units).
    pub pos: Vec2,
    /// Desired movement direction: a unit vector or zero.
    pub locomotion_dir: Vec2,
    /// Current velocity (milli-units per second).
    pub vel: Vec2,
    /// Attack direction: a unit vector, or zero when not firing.
    pub attack_dir: Vec2,
    /// Who spawned this actor; may dangle and then counts as "no owner".
    pub owner: Handle,
    /// Current health (milli-points); may go negative and is never clamped
    /// here.
    pub health: i64,
    /// Render tint.
    pub color: Color,
    /// Time since the last hit, driving the red flash.
    pub pain_timer: Timer,
    /// Animation frame counter (milli-frames).
    pub frame: i64,
    /// Facing, stored as a unit direction vector.
    pub facing: Vec2,
    /// Accumulated lifetime (milliseconds).
    pub age: i64,
}

impl ActorState {
    /// All fields are within the engine's fixed-point ranges.
    pub open spec fn wf(self) -> bool {
        &&& 0 <= self.weapon_cooldown <= TIME_LIMIT
        &&& self.pos.in_bounds(POS_LIMIT as int)
        &&& self.locomotion_dir.in_bounds(SCALE as int)
        &&& self.vel.in_bounds(VEL_LIMIT as int)
        &&& self.attack_dir.in_bounds(SCALE as int)
        &&& HEALTH_FLOOR <= self.health <= HEALTH_LIMIT
        &&& self.color.wf()
        &&& self.pain_timer.wf()
        &&& 0 <= self.frame <= FRAME_LIMIT
        &&& self.facing.in_bounds(SCALE as int)
        &&& 0 <= self.age <= TIME_LIMIT
    }

    /// The state a freshly spawned actor starts with: at the origin, at rest,
    /// facing along the positive x axis, with the description's health.
    pub open spec fn spec_initial(health: i64) -> ActorState {
        ActorState {
            weapon_cooldown: 0,
            pos: Vec2 { x: 0, y: 0 },
            locomotion_dir: Vec2 { x: 0, y: 0 },
            vel: Vec2 { x: 0, y: 0 },
            attack_dir: Vec2 { x: 0, y: 0 },
            owner: Handle::spec_null(),
            health,
            color: Color { r: COLOR_SCALE, g: COLOR_SCALE, b: COLOR_SCALE, a: COLOR_SCALE },
            pain_timer: Timer { timer: PAIN_FLASH_MS, end_time: PAIN_FLASH_MS },
            frame: 0,
            facing: Vec2 { x: SCALE, y: 0 },
            age: 0,
        }
    }

    /// Builds the initial state for a starting health.
    pub fn initial(health: i64) -> (r: ActorState)
        requires
            0 <= health <= HEALTH_LIMIT,
        ensures
            r == ActorState::spec_initial(health),
            r.wf(),
    {
        ActorState {
            weapon_cooldown: 0,
            pos: Vec2 { x: 0, y: 0 },
            locomotion_dir: Vec2 { x: 0, y: 0 },
            vel: Vec2 { x: 0, y: 0 },
            attack_dir: Vec2 { x: 0, y: 0 },
            owner: Handle::null(),
            health,
            color: Color::white(),
            pain_timer: Timer::new(PAIN_FLASH_MS),
            frame: 0,
            facing: Vec2 { x: SCALE, y: 0 },
            age: 0,
        }
    }
}

/// One live entity: its handle, its description references and its mutable
/// state.
#[derive(Clone, Copy, PartialEq, Eq, Structural, Debug)]
pub struct Actor {
    /// The handle this record lives under.
    pub handle: Handle,
    /// Index of the actor description in the catalog.
    pub info: usize,
    /// Index of the currently wielded weapon description.
    pub weapon: usize,
    /// The mutable state.
    pub state: ActorState,
}

impl Actor {
    /// References resolve in the catalog and the state is in range.
    pub open spec fn wf(self, infos: Infos) -> bool {
        &&& self.info < infos.actors@.len()
        &&& self.weapon < infos.weapons@.len()
        &&& self.state.wf()
    }

    /// The unit vector the actor faces along.
    pub fn facing_vector(&self) -> (r: Vec2)
        ensures
            r == self.state.facing,
    {
        self.state.facing
    }

    /// Alive means strictly positive health.
    pub open spec fn spec_is_alive(self) -> bool {
        self.state.health > 0
    }

    /// Whether the actor is alive.
    pub fn is_alive(&self) -> (r: bool)
        ensures
            r == self.spec_is_alive(),
    {
        self.state.health > 0
    }

    /// Solid means alive and flagged solid in the description.
    pub open spec fn spec_is_solid(self, infos: Infos) -> bool {
        self.spec_is_alive() && self.info < infos.actors@.len()
            && infos.actors@[self.info as int].solid
    }

    /// Whether the actor blocks movement.
    pub fn is_solid(&self, infos: &Infos) -> (r: bool)
        requires
            self.info < infos.actors@.len(),
        ensures
            r == self.spec_is_solid(*infos),
    {
        if !self.is_alive() {
            return false;
        }
        self.actor_info(infos).solid
    }

    /// The actor's own description.
    pub fn actor_info<'a>(&self, infos: &'a Infos) -> (r: &'a ActorInfo)
        requires
            self.info < infos.actors@.len(),
        ensures
            *r == infos.actors@[self.info as int],
    {
        match infos.get_actor(self.info) {
            Some(a) => a,
            None => {
                proof {
                    assert(false);
                }
                vstd::pervasive::unreached()
            },
        }
    }

    /// Which frame set the renderer shows: the dead frames at or below zero
    /// health, the locomotion frames while a movement input is held, the
    /// idle frames otherwise; an empty chosen set falls back to the idle
    /// frames.
    pub open spec fn spec_frame_set(self, infos: Infos) -> Seq<crate::infos::ImageIndex> {
        let info = infos.actors@[self.info as int];
        let chosen = if self.state.health <= 0 {
            info.dead_frames@
        } else if self.state.locomotion_dir != (Vec2 { x: 0i64, y: 0i64 }) {
            info.locomotion_frames@
        } else {
            info.frames@
        };
        if chosen.len() == 0 {
            info.frames@
        } else {
            chosen
        }
    }

    /// Picks the frame set to draw.
    pub fn frame_set<'a>(&self, infos: &'a Infos) -> (r: &'a Vec<crate::infos::ImageIndex>)
        requires
            self.info < infos.actors@.len(),
        ensures
            r@ == self.spec_frame_set(*infos),
    {
        let info = self.actor_info(infos);
        let chosen = if self.state.health <= 0 {
            &info.dead_frames
        } else if !(self.state.locomotion_dir.x == 0 && self.state.locomotion_dir.y == 0) {
            &info.locomotion_frames
        } else {
            &info.frames
        };
        if chosen.len() == 0 {
            &info.frames
        } else {
            chosen
        }
    }

    /// Where the hand holding the weapon sits: the position pushed along the
    /// facing by the collision radius.
    pub open spec fn spec_hand_pos(self, infos: Infos) -> Vec2 {
        self.state.pos.add_spec(
            self.state.facing.spec_scale_div(
                infos.actors@[self.info as int].radius as int,
                SCALE as int,
            ),
        )
    }

    /// Computes the hand position.
    pub fn hand_pos(&self, infos: &Infos) -> (r: Vec2)
        requires
            self.wf(*infos),
            infos.wf(),
        ensures
            r == self.spec_hand_pos(*infos),
            r.in_bounds(POS_LIMIT as int + 1_000_000),
    {
        let info = self.actor_info(infos);
        let off = self.state.facing.dir_scale(info.radius);
        self.state.pos.add(off)
    }

    /// Where the muzzle sits: the hand pushed further along the facing by the
    /// weapon's muzzle offset.
    pub open spec fn spec_muzzle_pos(self, infos: Infos) -> Vec2 {
        self.spec_hand_pos(infos).add_spec(
            self.state.facing.spec_scale_div(
                infos.weapons@[self.weapon as int].muzzle_offset as int,
                SCALE as int,
            ),
        )
    }

    /// Computes the muzzle position.
    pub fn muzzle_pos(&self, infos: &Infos) -> (r: Vec2)
        requires
            self.wf(*infos),
            infos.wf(),
        ensures
            r == self.spec_muzzle_pos(*infos),
            r.in_bounds(POS_LIMIT as int + 2_000_000),
    {
        let hand = self.hand_pos(infos);
        let w = match infos.get_weapon(self.weapon) {
            Some(w) => w,
            None => {
                proof {
                    assert(false);
                }
                vstd::pervasive::unreached()
            },
        };
        let off = self.state.facing.dir_scale(w.muzzle_offset);
        hand.add(off)
    }
}

/// A transient record that an actor's motion was blocked by another actor
/// this tick.
#[derive(Clone, Copy, PartialEq, Eq, Structural, Debug)]
pub enum ContactEvent {
    Actor { actor: Handle, other_actor: Handle },
}

/// The round state machine's current phase.
#[derive(Clone, Copy, PartialEq, Eq, Structural, Debug)]
pub enum GameState {
    /// Waiting for the next round to start.
    Countdown { timer: Timer },
    /// Spawning this round's wave, one mob per tick.
    Spawning { mobs_left_to_spawn: u32, mobs_total: u32 },
    /// The wave is out; waiting for it to be defeated.
    WaitForDefeat,
    /// The player died; waiting before a respawn is offered.
    WaitForRespawn { timer: Timer },
    /// A restart signal from outside brings the world back to a countdown.
    ReadyToRespawn,
}

impl GameState {
    /// Any timer the phase holds is in range.
    pub open spec fn wf(self) -> bool {
        match self {
            GameState::Countdown { timer } => timer.wf(),
            GameState::WaitForRespawn { timer } => timer.wf(),
            _ => true,
        }
    }

    /// The phase a new world starts in.
    pub open spec fn spec_default() -> GameState {
        GameState::Countdown { timer: Timer { timer: 0, end_time: COUNTDOWN_MS } }
    }
}

impl Default for GameState {
    /// A fresh countdown.
    fn default() -> (r: GameState)
        ensures
            r == GameState::spec_default(),
    {
        GameState::Countdown { timer: Timer::start(COUNTDOWN_MS) }
    }
}

/// An axis-aligned rectangle the player is kept inside.
#[derive(Clone, Copy, PartialEq, Eq, Structural, Debug)]
pub struct Bounds {
    pub left: i64,
    pub top: i64,
    pub width: i64,
    pub height: i64,
}

impl Bounds {
    /// The rectangle sits inside the world.
    pub open spec fn wf(self) -> bool {
        &&& -POS_LIMIT <= self.left
        &&& 0 <= self.width
        &&& self.left + self.width <= POS_LIMIT
        &&& -POS_LIMIT <= self.top
        &&& 0 <= self.height
        &&& self.top + self.height <= POS_LIMIT
    }

    /// The right edge.
    pub fn right(&self) -> (r: i64)
        requires
            self.wf(),
        ensures
            r == self.left + self.width,
    {
        self.left + self.width
    }

    /// The bottom edge.
    pub fn bottom(&self) -> (r: i64)
        requires
            self.wf(),
        ensures
            r == self.top + self.height,
    {
        self.top + self.height
    }
}



/// The whole mutable simulation state.
pub struct State {
    /// A helper clock kept for spawn pacing.
    pub spawner: Clock,
    /// The player's actor, if any; may dangle after the player despawns.
    pub me: Handle,
    /// All live actors.
    pub actors: Arena<Actor>,
    /// This tick's blocked-movement contacts; cleared every tick.
    pub contact_events: Vec<ContactEvent>,
    /// The monotonically increasing round counter.
    pub round: u32,
    /// The round state machine's phase.
    pub game_state: GameState,
    /// The rectangle the player is kept inside.
    pub bounds: Bounds,
}

/// How many of the handles in `s` refer to living, bot-flagged actors of `a`.
pub open spec fn count_live_bots(a: Arena<Actor>, infos: Infos, s: Seq<Handle>) -> int
    decreases s.len(),
{
    if s.len() == 0 {
        0
    } else {
        count_live_bots(a, infos, s.drop_last()) + {
            let h = s.last();
            if a.valid(h) && a.at(h).info < infos.actors@.len()
                && infos.actors@[a.at(h).info as int].bot && a.at(h).state.health > 0 {
                1int
            } else {
                0int
            }
        }
    }
}

impl State {
    /// The arena is structurally sound and every record knows its own handle.
    pub open spec fn wf_arena(self) -> bool {
        &&& self.actors.wf()
        &&& forall|h: Handle|
            self.actors.valid(h) ==> (#[trigger] self.actors.at(h)).handle == h
    }

    /// Full well-formedness against a catalog: the arena is sound, every
    /// live record resolves in the catalog and is within range, and the
    /// machine-wide fields are within range.
    pub open spec fn wf(self, infos: Infos) -> bool {
        &&& self.wf_arena()
        &&& forall|h: Handle|
            self.actors.valid(h) ==> (#[trigger] self.actors.at(h)).wf(infos)
        &&& self.spawner.wf()
        &&& self.game_state.wf()
        &&& self.round <= ROUND_CAP
        &&& self.bounds.wf()
    }

    /// The number of living bots among this state's live actors.
    pub open spec fn spec_mobs_left(self, infos: Infos) -> int {
        count_live_bots(self.actors, infos, self.actors.live_handles())
    }

    /// Counts the living, bot-flagged actors: the round machine's measure of
    /// how much of the wave is still standing.
    pub fn mobs_left(&self, infos: &Infos) -> (r: usize)
        requires
            self.wf(*infos),
        ensures
            r == self.spec_mobs_left(*infos),
    {
        let ks = self.actor_handles();
        let n = ks.len();
        let mut count: usize = 0;
        let mut i: usize = 0;
        while i < n
            invariant
                i <= n,
                n == ks@.len(),
                count <= i,
                self.wf(*infos),
                ks@ == self.actors.live_handles(),
                forall|j: int| 0 <= j < ks@.len() ==> self.actors.valid(#[trigger] ks@[j]),
                count == count_live_bots(self.actors, *infos, ks@.subrange(0, i as int)),
            decreases n - i,
        {
            let h = ks[i];
            let ghost pre = ks@.subrange(0, i as int);
            proof {
                assert(ks@.subrange(0, i + 1).drop_last() =~= pre);
                assert(ks@.subrange(0, i + 1).last() == ks@[i as int]);
            }
            match self.actors.get(h) {
                Some(a) => {
                    let alive = a.is_alive();
                    let bot = a.actor_info(infos).bot;
                    if alive && bot {
                        count = count + 1;
                    }
                },
                None => {},
            }
            i = i + 1;
        }
        proof {
            assert(ks@.subrange(0, n as int) =~= ks@);
        }
        count
    }

    /// A position in the live-handle sequence refers to a valid,
    /// well-formed record.
    pub proof fn lemma_live_actor_indices(self, infos: Infos, j: int)
        requires
            self.wf(infos),
            0 <= j < self.actors.live_handles().len(),
        ensures
            self.actors.valid(self.actors.live_handles()[j]),
            self.actors.at(self.actors.live_handles()[j]).wf(infos),
    {
        self.actors.lemma_live_handles();
    }

    /// Removes an actor; a stale handle changes nothing.
    pub fn despawn_actor(&mut self, handle: Handle)
        requires
            old(self).wf_arena(),
        ensures
            final(self).wf_arena(),
            old(self).actors.valid(handle) ==> forall|h2: Handle|
                h2.index == handle.index ==> !(#[trigger] final(self).actors.valid(h2)),
            forall|h2: Handle|
                h2.index != handle.index ==> (#[trigger] final(self).actors.valid(h2) <==> old(self).actors.valid(h2)),
            forall|h2: Handle|
                h2.index != handle.index && old(self).actors.valid(h2)
                    ==> #[trigger] final(self).actors.at(h2) == old(self).actors.at(h2),
            !old(self).actors.valid(handle) ==> final(self).actors == old(self).actors,
            final(self).spawner == old(self).spawner,
            final(self).me == old(self).me,
            final(self).contact_events == old(self).contact_events,
            final(self).round == old(self).round,
            final(self).game_state == old(self).game_state,
            final(self).bounds == old(self).bounds,
            forall|i: int|
                #[trigger] final(self).actors.slot_gen(i) == old(self).actors.slot_gen(i),
            forall|infos: Infos| old(self).wf(infos) ==> final(self).wf(infos),
    {
        let _ = self.actors.remove(handle);
    }

    /// Creates an actor from a description: a fresh handle, the description's
    /// starting health and weapon, everything else at the initial state.
    pub fn spawn_actor(&mut self, infos: &Infos, info_index: usize) -> (h: Handle)
        requires
            old(self).wf(*infos),
            infos.wf(),
            info_index < infos.actors@.len(),
        ensures
            final(self).wf(*infos),
            final(self).actors.valid(h),
            !old(self).actors.valid(h),
            final(self).actors.at(h) == (Actor {
                handle: h,
                info: info_index,
                weapon: infos.actors@[info_index as int].weapon,
                state: ActorState::spec_initial(infos.actors@[info_index as int].health),
            }),
            forall|h2: Handle|
                h2 != h ==> (#[trigger] final(self).actors.valid(h2) <==> old(self).actors.valid(
                    h2,
                )),
            forall|h2: Handle|
                h2 != h && old(self).actors.valid(h2) ==> #[trigger] final(self).actors.at(h2)
                    == old(self).actors.at(h2),
            final(self).spawner == old(self).spawner,
            final(self).me == old(self).me,
            final(self).contact_events == old(self).contact_events,
            final(self).round == old(self).round,
            final(self).game_state == old(self).game_state,
            final(self).bounds == old(self).bounds,
            final(self).actors.slot_gen(h.index as int) > old(self).actors.slot_gen(
                h.index as int,
            ),
            h.generation == final(self).actors.slot_gen(h.index as int),
            forall|i: int|
                i != h.index ==> #[trigger] final(self).actors.slot_gen(i) == old(
                    self,
                ).actors.slot_gen(i),
            old(self).actors.live_handles().len() == old(self).actors.spec_slot_count()
                ==> final(self).actors.live_handles() == old(self).actors.live_handles().push(h)
                && final(self).actors.spec_slot_count() == old(self).actors.spec_slot_count() + 1,
    {
        let info = match infos.get_actor(info_index) {
            Some(a) => a,
            None => {
                proof {
                    assert(false);
                }
                vstd::pervasive::unreached()
            },
        };
        let weapon = info.weapon;
        let st = ActorState::initial(info.health);
        let draft = Actor { handle: Handle::null(), info: info_index, weapon, state: st };
        let h = self.actors.insert(draft);
        let ghost mid = self.actors;
        let fixed = Actor { handle: h, info: info_index, weapon, state: st };
        let _ = self.actors.set(h, fixed);
        proof {
            assert forall|h2: Handle| h2 != h && old(self).actors.valid(h2) implies
                #[trigger] self.actors.at(h2) == old(self).actors.at(h2) by {
                if h2.index == h.index {
                    mid.lemma_index_unique(h2, h);
                }
            }
            assert forall|h2: Handle| self.actors.valid(h2) implies (#[trigger] self.actors.at(
                h2,
            )).handle == h2 && self.actors.at(h2).wf(*infos) by {
                if h2 != h {
                    if h2.index == h.index {
                        mid.lemma_index_unique(h2, h);
                    }
                }
            }
        }
        h
    }

    /// A snapshot of all live handles, in slot order; taken before any loop
    /// that mutates the arena while walking it.
    pub fn actor_handles(&self) -> (r: Vec<Handle>)
        requires
            self.wf_arena(),
        ensures
            r@ == self.actors.live_handles(),
            forall|j: int| 0 <= j < r@.len() ==> self.actors.valid(#[trigger] r@[j]),
            forall|h: Handle| self.actors.valid(h) ==> #[trigger] r@.contains(h),
            forall|j: int, k: int| 0 <= j < k < r@.len() ==> r@[j].index < r@[k].index,
    {
        self.actors.keys()
    }

    /// Looks an actor up; a stale handle yields nothing.
    pub fn actor(&self, handle: Handle) -> (r: Option<&Actor>)
        requires
            self.wf_arena(),
        ensures
            match r {
                Some(a) => self.actors.valid(handle) && *a == self.actors.at(handle)
                    && a.handle == handle,
                None => !self.actors.valid(handle),
            },
    {
        self.actors.get(handle)
    }

    /// Writes an actor's record back under its handle; reports whether the
    /// handle was live.
    pub fn set_actor(&mut self, handle: Handle, a: Actor) -> (r: bool)
        requires
            old(self).wf_arena(),
            a.handle == handle,
        ensures
            final(self).wf_arena(),
            r == old(self).actors.valid(handle),
            forall|h2: Handle|
                #[trigger] final(self).actors.valid(h2) <==> old(self).actors.valid(h2),
            old(self).actors.valid(handle) ==> final(self).actors.at(handle) == a,
            forall|h2: Handle|
                h2.index != handle.index && old(self).actors.valid(h2)
                    ==> #[trigger] final(self).actors.at(h2) == old(self).actors.at(h2),
            !old(self).actors.valid(handle) ==> final(self).actors == old(self).actors,
            final(self).spawner == old(self).spawner,
            final(self).me == old(self).me,
            final(self).contact_events == old(self).contact_events,
            final(self).round == old(self).round,
            final(self).game_state == old(self).game_state,
            final(self).bounds == old(self).bounds,
            forall|i: int|
                #[trigger] final(self).actors.slot_gen(i) == old(self).actors.slot_gen(i),
            final(self).actors.live_handles() == old(self).actors.live_handles(),
            final(self).actors.spec_slot_count() == old(self).actors.spec_slot_count(),
            forall|infos: Infos|
                old(self).wf(infos) && a.wf(infos) ==> final(self).wf(infos),
    {
        let r = self.actors.set(handle, a);
        proof {
            if old(self).actors.valid(handle) {
                assert forall|h2: Handle|
                    old(self).actors.valid(h2) && h2.index == handle.index implies h2
                    == handle by {
                    old(self).actors.lemma_index_unique(h2, handle);
                }
            }
        }
        r
    }
}

impl Default for State {
    /// An empty world: no actors, no player, round zero, a fresh countdown,
    /// and the default square arena bounds.
    fn default() -> (r: State)
        ensures
            forall|h: Handle| !r.actors.valid(h),
            r.actors.live_handles() == Seq::<Handle>::empty(),
            r.actors.spec_slot_count() == 0,
            r.me == Handle::spec_null(),
            r.round == 0,
            r.game_state == GameState::spec_default(),
            r.spawner == (Clock { tick: 0i64 }),
            r.contact_events@.len() == 0,
            r.bounds == (Bounds { left: -16_000i64, top: -16_000i64, width: 32_000i64, height: 32_000i64 }),
            forall|infos: Infos| r.wf(infos),
    {
        State {
            spawner: Clock { tick: 0 },
            me: Handle::null(),
            actors: Arena::new(),
            contact_events: Vec::new(),
            round: 0,
            game_state: GameState::default(),
            bounds: Bounds { left: -16_000, top: -16_000, width: 32_000, height: 32_000 },
        }
    }
}

} // verus!
