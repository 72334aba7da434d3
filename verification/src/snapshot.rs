//! Save and restore: the snapshot of the mutable simulation state, and its
//! reconstruction against a catalog.
//!
//! A snapshot carries the round machine's data and, for every live actor,
//! its description name, its weapon name and its full mutable state.  The
//! player is recorded by its position in the serialized actor list, never by
//! its raw handle: handles are not stable across arena reconstruction.
//! Restoring resolves the names against the catalog and mints fresh handles;
//! any unresolved name or out-of-range field makes the whole restore fail.

use vstd::prelude::*;

use crate::arena::Handle;
use crate::fixed::{POS_LIMIT, SCALE, TIME_LIMIT, VEL_LIMIT};
use crate::infos::Infos;
use crate::state::{
    Actor, ActorState, Bounds, Clock, GameState, State, COLOR_SCALE, FRAME_LIMIT, HEALTH_FLOOR,
    ROUND_CAP,
};

verus! {

/// One live actor, as persisted: description and weapon by name, state by
/// value.
pub struct ActorSnapshot {
    pub info: String,
    pub weapon: String,
    pub state: ActorState,
}

/// The whole persisted simulation state.
pub struct StateSnapshot {
    /// The spawn-pacing clock.
    pub spawner: Clock,
    /// The player's position in `actors`; zero when there was no player.
    pub me: usize,
    /// The round machine's phase.
    pub game_state: GameState,
    /// The round counter.
    pub round: u32,
    /// Every live actor, in slot order.
    pub actors: Vec<ActorSnapshot>,
}

/// Decides whether an actor state lies within the engine's ranges.
pub fn check_actor_state(s: &ActorState) -> (r: bool)
    ensures
        r == s.wf(),
{
    0 <= s.weapon_cooldown && s.weapon_cooldown <= TIME_LIMIT && -POS_LIMIT <= s.pos.x && s.pos.x
        <= POS_LIMIT && -POS_LIMIT <= s.pos.y && s.pos.y <= POS_LIMIT && -SCALE
        <= s.locomotion_dir.x && s.locomotion_dir.x <= SCALE && -SCALE <= s.locomotion_dir.y
        && s.locomotion_dir.y <= SCALE && -VEL_LIMIT <= s.vel.x && s.vel.x <= VEL_LIMIT
        && -VEL_LIMIT <= s.vel.y && s.vel.y <= VEL_LIMIT && -SCALE <= s.attack_dir.x
        && s.attack_dir.x <= SCALE && -SCALE <= s.attack_dir.y && s.attack_dir.y <= SCALE
        && HEALTH_FLOOR <= s.health && s.health <= crate::fixed::HEALTH_LIMIT && 0 <= s.color.r
        && s.color.r <= COLOR_SCALE && 0 <= s.color.g && s.color.g <= COLOR_SCALE && 0 <= s.color.b
        && s.color.b <= COLOR_SCALE && 0 <= s.color.a && s.color.a <= COLOR_SCALE && 0
        <= s.pain_timer.timer && s.pain_timer.timer <= s.pain_timer.end_time
        && s.pain_timer.end_time <= TIME_LIMIT && 0 <= s.frame && s.frame <= FRAME_LIMIT && -SCALE
        <= s.facing.x && s.facing.x <= SCALE && -SCALE <= s.facing.y && s.facing.y <= SCALE && 0
        <= s.age && s.age <= TIME_LIMIT
}

/// Decides whether the round machine's phase carries a timer in range.
pub fn check_game_state(gs: &GameState) -> (r: bool)
    ensures
        r == gs.wf(),
{
    match gs {
        GameState::Countdown { timer } => 0 <= timer.timer && timer.timer <= timer.end_time
            && timer.end_time <= TIME_LIMIT,
        GameState::WaitForRespawn { timer } => 0 <= timer.timer && timer.timer <= timer.end_time
            && timer.end_time <= TIME_LIMIT,
        _ => true,
    }
}

impl StateSnapshot {
    /// The snapshot can be restored against this catalog: every field is in
    /// range and every name resolves.
    pub open spec fn spec_loadable(self, infos: Infos) -> bool {
        &&& self.spawner.wf()
        &&& self.game_state.wf()
        &&& self.round <= ROUND_CAP
        &&& forall|j: int|
            0 <= j < self.actors@.len() ==> (#[trigger] self.actors@[j]).state.wf()
        &&& forall|j: int|
            0 <= j < self.actors@.len() ==> infos.has_actor_named(
                (#[trigger] self.actors@[j]).info@,
            )
        &&& forall|j: int|
            0 <= j < self.actors@.len() ==> infos.has_weapon_named(
                (#[trigger] self.actors@[j]).weapon@,
            )
    }

    /// `snap` captures `s` exactly: the machine fields by value, the actor
    /// list in slot order with names resolved from the catalog, and the
    /// player by its list position.
    pub open spec fn spec_created(self, s: State, infos: Infos) -> bool {
        let live = s.actors.live_handles();
        &&& self.spawner == s.spawner
        &&& self.game_state == s.game_state
        &&& self.round == s.round
        &&& self.actors@.len() == live.len()
        &&& forall|j: int|
            0 <= j < live.len() ==> {
                let a = s.actors.at(live[j]);
                &&& (#[trigger] self.actors@[j]).info@ == infos.actors@[a.info as int].name@
                &&& self.actors@[j].weapon@ == infos.weapons@[a.weapon as int].name@
                &&& self.actors@[j].state == a.state
            }
        &&& s.actors.valid(s.me) ==> self.me < live.len() && live[self.me as int] == s.me
        &&& !s.actors.valid(s.me) ==> self.me == 0
    }

    /// `st` is the restore of `snap`: fresh densely packed handles in list
    /// order, names resolved to catalog indices, machine fields by value,
    /// transient contacts empty.
    pub open spec fn spec_loaded(self, st: State, infos: Infos) -> bool {
        let live = st.actors.live_handles();
        &&& st.wf(infos)
        &&& st.spawner == self.spawner
        &&& st.game_state == self.game_state
        &&& st.round == self.round
        &&& st.contact_events@.len() == 0
        &&& live.len() == self.actors@.len()
        &&& forall|j: int|
            0 <= j < live.len() ==> {
                let a = st.actors.at(#[trigger] live[j]);
                &&& st.actors.valid(live[j])
                &&& a.state == self.actors@[j].state
                &&& a.info < infos.actors@.len()
                &&& infos.actors@[a.info as int].name@ == self.actors@[j].info@
                &&& a.weapon < infos.weapons@.len()
                &&& infos.weapons@[a.weapon as int].name@ == self.actors@[j].weapon@
            }
        &&& if self.me < self.actors@.len() {
            st.me == live[self.me as int]
        } else {
            st.me == Handle::spec_null()
        }
    }

    /// Serializes the mutable simulation state.  The result also proves
    /// restorable against the same catalog.
    pub fn create_snapshot(state: &State, infos: &Infos) -> (snap: StateSnapshot)
        requires
            state.wf(*infos),
            infos.wf(),
        ensures
            snap.spec_created(*state, *infos),
            snap.spec_loadable(*infos),
    {
        let ks = state.actor_handles();
        let n = ks.len();
        let me = state.me;
        let mut actors: Vec<ActorSnapshot> = Vec::new();
        let mut me_idx: usize = 0;
        let mut i: usize = 0;
        while i < n
            invariant
                i <= n,
                n == ks@.len(),
                infos.wf(),
                state.wf(*infos),
                me == state.me,
                ks@ == state.actors.live_handles(),
                forall|j: int| 0 <= j < ks@.len() ==> state.actors.valid(#[trigger] ks@[j]),
                actors@.len() == i,
                forall|j: int|
                    0 <= j < i ==> {
                        let a = state.actors.at(ks@[j]);
                        &&& (#[trigger] actors@[j]).info@ == infos.actors@[a.info as int].name@
                        &&& actors@[j].weapon@ == infos.weapons@[a.weapon as int].name@
                        &&& actors@[j].state == a.state
                    },
                forall|j: int| 0 <= j < i ==> (#[trigger] actors@[j]).state.wf(),
                (exists|j: int| 0 <= j < i && ks@[j] == me) ==> me_idx < i && ks@[me_idx as int]
                    == me,
                !(exists|j: int| 0 <= j < i && ks@[j] == me) ==> me_idx == 0,
            decreases n - i,
        {
            let h = ks[i];
            let a = match state.actor(h) {
                Some(a) => *a,
                None => {
                    proof {
                        assert(false);
                    }
                    vstd::pervasive::unreached()
                },
            };
            let info_name = a.actor_info(infos).name.clone();
            let weapon_name = match infos.get_weapon(a.weapon) {
                Some(w) => w.name.clone(),
                None => {
                    proof {
                        assert(false);
                    }
                    vstd::pervasive::unreached()
                },
            };
            if h.index == me.index && h.generation == me.generation {
                me_idx = i;
                proof {
                    assert(ks@[i as int] == me);
                }
            }
            actors.push(ActorSnapshot { info: info_name, weapon: weapon_name, state: a.state });
            i = i + 1;
        }
        let snap = StateSnapshot {
            spawner: state.spawner,
            me: me_idx,
            game_state: state.game_state,
            round: state.round,
            actors,
        };
        proof {
            if state.actors.valid(me) {
                assert(ks@.contains(me));
                let j = choose|j: int| 0 <= j < ks@.len() && ks@[j] == me;
            }
            assert forall|j: int| 0 <= j < snap.actors@.len() implies infos.has_actor_named(
                (#[trigger] snap.actors@[j]).info@,
            ) && infos.has_weapon_named(snap.actors@[j].weapon@) by {
                let a = state.actors.at(ks@[j]);
                assert(infos.actors@[a.info as int].name@ == snap.actors@[j].info@);
                assert(infos.weapons@[a.weapon as int].name@ == snap.actors@[j].weapon@);
            }
        }
        snap
    }

    /// Restores a snapshot against a catalog: succeeds exactly when every
    /// field is in range and every name resolves, rebuilding the arena with
    /// fresh handles.
    pub fn load_snapshot(&self, infos: &Infos) -> (r: Option<State>)
        requires
            infos.wf(),
        ensures
            r is Some <==> self.spec_loadable(*infos),
            match r {
                Some(st) => self.spec_loaded(st, *infos),
                None => true,
            },
    {
        if !(0 <= self.spawner.tick && self.spawner.tick <= TIME_LIMIT) {
            return None;
        }
        if !check_game_state(&self.game_state) {
            return None;
        }
        if self.round > ROUND_CAP {
            return None;
        }
        let n = self.actors.len();
        let mut st = State::default();
        let mut me_h = Handle::null();
        let mut i: usize = 0;
        while i < n
            invariant
                i <= n,
                n == self.actors@.len(),
                infos.wf(),
                st.wf(*infos),
                st.actors.live_handles().len() == i,
                st.actors.spec_slot_count() == i,
                st.contact_events@.len() == 0,
                st.spawner == (Clock { tick: 0i64 }),
                st.game_state == GameState::spec_default(),
                st.round == 0,
                st.bounds == (Bounds {
                    left: -16_000i64,
                    top: -16_000i64,
                    width: 32_000i64,
                    height: 32_000i64,
                }),
                forall|j: int|
                    0 <= j < i ==> {
                        let a = st.actors.at(#[trigger] st.actors.live_handles()[j]);
                        &&& st.actors.valid(st.actors.live_handles()[j])
                        &&& a.state == self.actors@[j].state
                        &&& a.info < infos.actors@.len()
                        &&& infos.actors@[a.info as int].name@ == self.actors@[j].info@
                        &&& a.weapon < infos.weapons@.len()
                        &&& infos.weapons@[a.weapon as int].name@ == self.actors@[j].weapon@
                    },
                forall|j: int| 0 <= j < i ==> (#[trigger] self.actors@[j]).state.wf(),
                forall|j: int|
                    0 <= j < i ==> infos.has_actor_named((#[trigger] self.actors@[j]).info@),
                forall|j: int|
                    0 <= j < i ==> infos.has_weapon_named((#[trigger] self.actors@[j]).weapon@),
                self.me < i ==> me_h == st.actors.live_handles()[self.me as int],
                !(self.me < i) ==> me_h == Handle::spec_null(),
            decreases n - i,
        {
            let asnap = &self.actors[i];
            let ai = match infos.find_actor(asnap.info.as_str()) {
                Some(ai) => ai,
                None => {
                    proof {
                        assert(!infos.has_actor_named(self.actors@[i as int].info@));
                    }
                    return None;
                },
            };
            let wi = match infos.find_weapon(asnap.weapon.as_str()) {
                Some(wi) => wi,
                None => {
                    proof {
                        assert(!infos.has_weapon_named(self.actors@[i as int].weapon@));
                    }
                    return None;
                },
            };
            if !check_actor_state(&asnap.state) {
                return None;
            }
            let ghost live_pre = st.actors.live_handles();
            let h = st.spawn_actor(infos, ai);
            let rec = Actor { handle: h, info: ai, weapon: wi, state: asnap.state };
            proof {
                assert(rec.wf(*infos));
            }
            let _ = st.set_actor(h, rec);
            proof {
                assert(st.actors.live_handles() == live_pre.push(h));
                assert(st.actors.at(h) == rec);
                assert forall|j: int| 0 <= j < i implies {
                    let a = st.actors.at(#[trigger] st.actors.live_handles()[j]);
                    &&& st.actors.valid(st.actors.live_handles()[j])
                    &&& a.state == self.actors@[j].state
                    &&& a.info < infos.actors@.len()
                    &&& infos.actors@[a.info as int].name@ == self.actors@[j].info@
                    &&& a.weapon < infos.weapons@.len()
                    &&& infos.weapons@[a.weapon as int].name@ == self.actors@[j].weapon@
                } by {
                    assert(st.actors.live_handles()[j] == live_pre[j]);
                    if live_pre[j].index == h.index {
                        st.actors.lemma_index_unique(live_pre[j], h);
                        assert(false);
                    }
                }
            }
            if i == self.me {
                me_h = h;
                proof {
                    assert(st.actors.live_handles()[self.me as int] == h);
                }
            }
            i = i + 1;
        }
        st.spawner = self.spawner;
        st.game_state = self.game_state;
        st.round = self.round;
        st.me = me_h;
        proof {
            if self.me < n {
                assert(st.actors.valid(st.me));
            }
        }
        Some(st)
    }
}

/// Round trip: a state reloaded from its own snapshot reproduces the round
/// number, the round machine's phase, every live actor's description,
/// weapon and mutable state in order, and the player's resolved state —
/// only the handle values differ, and the transient contact events are
/// reset.
pub proof fn lemma_snapshot_round_trip(s: State, snap: StateSnapshot, s2: State, infos: Infos)
    requires
        s.wf(infos),
        infos.wf(),
        snap.spec_created(s, infos),
        snap.spec_loaded(s2, infos),
    ensures
        s2.round == s.round,
        s2.game_state == s.game_state,
        s2.spawner == s.spawner,
        s2.contact_events@.len() == 0,
        s2.actors.live_handles().len() == s.actors.live_handles().len(),
        forall|j: int|
            0 <= j < s.actors.live_handles().len() ==> {
                let a1 = s.actors.at(#[trigger] s.actors.live_handles()[j]);
                let a2 = s2.actors.at(s2.actors.live_handles()[j]);
                &&& a2.state == a1.state
                &&& a2.info == a1.info
                &&& a2.weapon == a1.weapon
            },
        s.actors.valid(s.me) ==> s2.actors.valid(s2.me) && s2.actors.at(s2.me).state
            == s.actors.at(s.me).state,
{
    let live1 = s.actors.live_handles();
    let live2 = s2.actors.live_handles();
    assert forall|j: int| 0 <= j < live1.len() implies {
        let a1 = s.actors.at(#[trigger] live1[j]);
        let a2 = s2.actors.at(live2[j]);
        &&& a2.state == a1.state
        &&& a2.info == a1.info
        &&& a2.weapon == a1.weapon
    } by {
        let a1 = s.actors.at(live1[j]);
        let a2 = s2.actors.at(live2[j]);
        assert(a2.state == snap.actors@[j].state);
        assert(infos.actors@[a2.info as int].name@ == snap.actors@[j].info@);
        assert(infos.actors@[a1.info as int].name@ == snap.actors@[j].info@);
        s.lemma_live_actor_indices(infos, j);
        if a1.info != a2.info {
            assert(infos.actors@[a1.info as int].name@ != infos.actors@[a2.info as int].name@);
            assert(false);
        }
        if a1.weapon != a2.weapon {
            assert(infos.weapons@[a1.weapon as int].name@ != infos.weapons@[a2.weapon as int].name@);
            assert(false);
        }
    }
    if s.actors.valid(s.me) {
        let k = snap.me as int;
        assert(live1[k] == s.me);
        assert(s2.me == live2[k]);
        assert(s2.actors.at(s2.me).state == snap.actors@[k].state);
        assert(snap.actors@[k].state == s.actors.at(s.me).state);
    }
}

} // verus!
