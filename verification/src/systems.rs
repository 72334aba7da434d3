//! Bot steering, world start and the per-tick system pipeline.

use vstd::prelude::*;

use crate::arena::Handle;
use crate::fixed::MAX_DT;
use crate::infos::Infos;
use crate::state::{Actor, ActorState, GameState, State};
use crate::vec2::Vec2;

verus! {

/// Only the steering fields (facing, locomotion input, attack input) may
/// differ between the two records.
pub open spec fn spec_steering_only(oa: Actor, na: Actor) -> bool {
    na == (Actor {
        state: ActorState {
            facing: na.state.facing,
            locomotion_dir: na.state.locomotion_dir,
            attack_dir: na.state.attack_dir,
            ..oa.state
        },
        ..oa
    })
}

/// One bot's steering decision against a player record: a living bot seeks a
/// living player (facing and walking toward it) and attacks once the player
/// is within its weapon's engagement range; with the player dead it stops,
/// and with no player record it does nothing.
pub open spec fn spec_bot_step(bot: Actor, player: Option<Actor>, infos: Infos) -> Actor {
    if !(bot.state.health > 0 && infos.actors@[bot.info as int].bot) {
        bot
    } else {
        match player {
            None => bot,
            Some(p) => {
                let v = p.state.pos.sub_spec(bot.state.pos);
                let range = v.spec_len();
                let dir = v.spec_normalize();
                let p_alive = p.state.health > 0;
                let facing = if p_alive {
                    dir
                } else {
                    bot.state.facing
                };
                let loco = if p_alive {
                    dir
                } else {
                    Vec2 { x: 0, y: 0 }
                };
                let atk = if p_alive && range < infos.weapons@[bot.weapon as int].range {
                    dir
                } else {
                    Vec2 { x: 0, y: 0 }
                };
                Actor {
                    state: ActorState {
                        facing,
                        locomotion_dir: loco,
                        attack_dir: atk,
                        ..bot.state
                    },
                    ..bot
                }
            },
        }
    }
}

/// Computes one bot's steering decision.
pub fn bot_step(bot: &Actor, player: Option<&Actor>, infos: &Infos) -> (r: Actor)
    requires
        bot.wf(*infos),
        infos.wf(),
        match player {
            Some(p) => p.state.wf(),
            None => true,
        },
    ensures
        r == spec_bot_step(*bot, match player {
            Some(p) => Some(*p),
            None => None::<Actor>,
        }, *infos),
        r.wf(*infos),
        r.handle == bot.handle,
{
    let alive = bot.is_alive();
    let flagged = bot.actor_info(infos).bot;
    if !(alive && flagged) {
        return *bot;
    }
    match player {
        None => *bot,
        Some(p) => {
            let v = p.state.pos.sub(bot.state.pos);
            let range = v.length();
            let dir = v.normalize();
            let p_alive = p.is_alive();
            let w = match infos.get_weapon(bot.weapon) {
                Some(w) => w,
                None => {
                    proof {
                        assert(false);
                    }
                    vstd::pervasive::unreached()
                },
            };
            let mut r = *bot;
            if p_alive {
                r.state.facing = dir;
                r.state.locomotion_dir = dir;
            } else {
                r.state.locomotion_dir = Vec2::zero();
            }
            if p_alive && range < w.range {
                r.state.attack_dir = dir;
            } else {
                r.state.attack_dir = Vec2::zero();
            }
            r
        },
    }
}

/// The bot pass: every living, bot-flagged actor steers against the tracked
/// player.  Only steering fields change; when the player is not itself a
/// bot, every bot's update is exactly [`spec_bot_step`] against the player
/// record as it stood when the pass began.
pub fn bots(state: &mut State, infos: &Infos)
    requires
        old(state).wf(*infos),
        infos.wf(),
    ensures
        final(state).wf(*infos),
        forall|h: Handle|
            #[trigger] final(state).actors.valid(h) <==> old(state).actors.valid(h),
        forall|h: Handle|
            old(state).actors.valid(h) ==> spec_steering_only(
                old(state).actors.at(h),
                #[trigger] final(state).actors.at(h),
            ),
        !(old(state).actors.valid(old(state).me) && infos.actors@[old(state).actors.at(
            old(state).me,
        ).info as int].bot) ==> forall|h: Handle|
            old(state).actors.valid(h) ==> #[trigger] final(state).actors.at(h) == spec_bot_step(
                old(state).actors.at(h),
                if old(state).actors.valid(old(state).me) {
                    Some(old(state).actors.at(old(state).me))
                } else {
                    None
                },
                *infos,
            ),
        final(state).spawner == old(state).spawner,
        final(state).me == old(state).me,
        final(state).contact_events == old(state).contact_events,
        final(state).round == old(state).round,
        final(state).game_state == old(state).game_state,
        final(state).bounds == old(state).bounds,
{
    let ks = state.actor_handles();
    let n = ks.len();
    let me = state.me;
    let ghost player_not_bot = !(old(state).actors.valid(old(state).me)
        && infos.actors@[old(state).actors.at(old(state).me).info as int].bot);
    let mut i: usize = 0;
    while i < n
        invariant
            i <= n,
            n == ks@.len(),
            infos.wf(),
            state.wf(*infos),
            me == old(state).me,
            player_not_bot == !(old(state).actors.valid(old(state).me)
                && infos.actors@[old(state).actors.at(old(state).me).info as int].bot),
            ks@ == old(state).actors.live_handles(),
            forall|j: int| 0 <= j < ks@.len() ==> old(state).actors.valid(#[trigger] ks@[j]),
            forall|hh: Handle| old(state).actors.valid(hh) ==> #[trigger] ks@.contains(hh),
            forall|j: int, k: int| 0 <= j < k < ks@.len() ==> ks@[j].index < ks@[k].index,
            forall|h: Handle|
                #[trigger] state.actors.valid(h) <==> old(state).actors.valid(h),
            forall|j: int|
                0 <= j < ks@.len() ==> spec_steering_only(
                    old(state).actors.at(ks@[j]),
                    #[trigger] state.actors.at(ks@[j]),
                ),
            player_not_bot && old(state).actors.valid(me) ==> state.actors.at(me) == old(
                state,
            ).actors.at(me),
            player_not_bot ==> forall|j: int|
                0 <= j < i ==> #[trigger] state.actors.at(ks@[j]) == spec_bot_step(
                    old(state).actors.at(ks@[j]),
                    if old(state).actors.valid(me) {
                        Some(old(state).actors.at(me))
                    } else {
                        None
                    },
                    *infos,
                ),
            forall|j: int|
                i <= j < ks@.len() ==> #[trigger] state.actors.at(ks@[j]) == old(state).actors.at(
                    ks@[j],
                ),
            state.spawner == old(state).spawner,
            state.me == old(state).me,
            state.contact_events == old(state).contact_events,
            state.round == old(state).round,
            state.game_state == old(state).game_state,
            state.bounds == old(state).bounds,
        decreases n - i,
    {
        let h = ks[i];
        let a = match state.actor(h) {
            Some(a) => *a,
            None => {
                proof {
                    assert(false);
                }
                vstd::pervasive::unreached()
            },
        };
        let player: Option<Actor> = match state.actor(me) {
            Some(p) => Some(*p),
            None => None,
        };
        let updated = match player {
            Some(p) => bot_step(&a, Some(&p), infos),
            None => bot_step(&a, None, infos),
        };
        let ghost pre = *state;
        let _ = state.set_actor(h, updated);
        proof {
            assert forall|j: int|
                0 <= j < ks@.len() && j != i implies #[trigger] state.actors.at(ks@[j])
                == pre.actors.at(ks@[j]) by {
                if ks@[j].index == h.index {
                    pre.actors.lemma_index_unique(ks@[j], h);
                    assert(false);
                }
            }
            assert(spec_steering_only(
                old(state).actors.at(ks@[i as int]),
                state.actors.at(ks@[i as int]),
            ));
            if player_not_bot && old(state).actors.valid(me) {
                if me.index == h.index {
                    pre.actors.lemma_index_unique(me, h);
                    assert(me == h);
                    assert(state.actors.at(me) == updated);
                    assert(updated == old(state).actors.at(me));
                } else {
                    assert(state.actors.at(me) == pre.actors.at(me));
                }
            }
        }
        i = i + 1;
    }
    proof {
        assert forall|h: Handle| old(state).actors.valid(h) implies spec_steering_only(
            old(state).actors.at(h),
            #[trigger] state.actors.at(h),
        ) by {
            assert(ks@.contains(h));
            let j = choose|j: int| 0 <= j < ks@.len() && ks@[j] == h;
        }
        if player_not_bot {
            assert forall|h: Handle| old(state).actors.valid(h) implies
                #[trigger] state.actors.at(h) == spec_bot_step(
                old(state).actors.at(h),
                if old(state).actors.valid(me) {
                    Some(old(state).actors.at(me))
                } else {
                    None
                },
                *infos,
            ) by {
                assert(ks@.contains(h));
                let j = choose|j: int| 0 <= j < ks@.len() && ks@[j] == h;
            }
        }
    }
}

/// Clears the world and spawns the player actor from the description named
/// `guy`; afterwards the world holds exactly the player, tracked by `me`.
pub fn start(state: &mut State, infos: &Infos)
    requires
        infos.wf(),
        infos.has_actor_named("guy"@),
    ensures
        final(state).wf(*infos),
        final(state).actors.valid(final(state).me),
        forall|h2: Handle|
            h2 != final(state).me ==> !(#[trigger] final(state).actors.valid(h2)),
        exists|gi: int|
            0 <= gi < infos.actors@.len() && (#[trigger] infos.actors@[gi]).name@ == "guy"@
                && final(state).actors.at(final(state).me) == (Actor {
                handle: final(state).me,
                info: gi as usize,
                weapon: infos.actors@[gi].weapon,
                state: ActorState::spec_initial(infos.actors@[gi].health),
            }),
        final(state).round == 0,
        final(state).game_state == GameState::spec_default(),
        final(state).contact_events@.len() == 0,
{
    let gi = match infos.find_actor("guy") {
        Some(gi) => gi,
        None => {
            proof {
                assert(false);
            }
            vstd::pervasive::unreached()
        },
    };
    let mut fresh = State::default();
    let hg = fresh.spawn_actor(infos, gi);
    fresh.me = hg;
    *state = fresh;
}

/// The one-time setup when the program begins: starting the world.
pub fn once(state: &mut State, infos: &Infos)
    requires
        infos.wf(),
        infos.has_actor_named("guy"@),
    ensures
        final(state).wf(*infos),
        final(state).actors.valid(final(state).me),
        forall|h2: Handle|
            h2 != final(state).me ==> !(#[trigger] final(state).actors.valid(h2)),
        exists|gi: int|
            0 <= gi < infos.actors@.len() && (#[trigger] infos.actors@[gi]).name@ == "guy"@
                && final(state).actors.at(final(state).me) == (Actor {
                handle: final(state).me,
                info: gi as usize,
                weapon: infos.actors@[gi].weapon,
                state: ActorState::spec_initial(infos.actors@[gi].health),
            }),
        final(state).round == 0,
        final(state).game_state == GameState::spec_default(),
        final(state).contact_events@.len() == 0,
{
    start(state, infos);
}

/// One whole simulation tick, in pipeline order: the round machine, bot
/// steering, attacks, locomotion, physics with contact resolution, the
/// player's bounds, missile contact damage, particle decay, the pain flash,
/// animation and aging.  Input polling, rendering and save handling happen
/// outside the engine, around this call.
pub fn tick(state: &mut State, infos: &Infos, dt: i64)
    requires
        old(state).wf(*infos),
        infos.wf(),
        infos.has_actor_named("zombie"@),
        infos.has_actor_named("spatter"@),
        0 <= dt <= MAX_DT,
    ensures
        final(state).wf(*infos),
        final(state).me == old(state).me,
        final(state).bounds == old(state).bounds,
        old(state).game_state matches GameState::Countdown { timer } ==> {
            let t2 = crate::rounds::spec_ticked_timer(timer, dt as int);
            &&& if t2.spec_is_done() {
                &&& final(state).round == if old(state).round < crate::state::ROUND_CAP {
                    old(state).round + 1
                } else {
                    crate::state::ROUND_CAP as int
                }
                &&& final(state).game_state == (GameState::Spawning {
                    mobs_left_to_spawn: crate::rounds::spec_wave_size(
                        final(state).round as int,
                    ) as u32,
                    mobs_total: crate::rounds::spec_wave_size(final(state).round as int) as u32,
                })
            } else {
                &&& final(state).round == old(state).round
                &&& final(state).game_state == (GameState::Countdown { timer: t2 })
            }
        },
        old(state).game_state matches GameState::Spawning { mobs_left_to_spawn, mobs_total } ==> {
            &&& final(state).round == old(state).round
            &&& final(state).game_state == if mobs_left_to_spawn > 0 {
                GameState::Spawning {
                    mobs_left_to_spawn: (mobs_left_to_spawn - 1) as u32,
                    mobs_total,
                }
            } else {
                GameState::WaitForDefeat
            }
        },
        old(state).game_state is WaitForDefeat ==> {
            &&& final(state).round == old(state).round
            &&& {
                let cleared = old(state).spec_mobs_left(*infos) == 0;
                let me = old(state).me;
                if old(state).actors.valid(me) && old(state).actors.at(me).state.health <= 0 {
                    final(state).game_state == (GameState::WaitForRespawn {
                        timer: crate::state::Timer {
                            timer: 0,
                            end_time: crate::state::RESPAWN_WAIT_MS,
                        },
                    })
                } else if cleared {
                    final(state).game_state == (GameState::Countdown {
                        timer: crate::state::Timer {
                            timer: 0,
                            end_time: crate::state::COUNTDOWN_MS,
                        },
                    })
                } else {
                    final(state).game_state == GameState::WaitForDefeat
                }
            }
        },
        old(state).game_state matches GameState::WaitForRespawn { timer } ==> {
            let t2 = crate::rounds::spec_ticked_timer(timer, dt as int);
            &&& final(state).round == old(state).round
            &&& final(state).game_state == if t2.spec_is_done() {
                GameState::ReadyToRespawn
            } else {
                GameState::WaitForRespawn { timer: t2 }
            }
        },
        old(state).game_state is ReadyToRespawn ==> final(state).game_state == old(
            state,
        ).game_state && final(state).round == old(state).round,
{
    crate::rounds::game_state(state, infos, dt);
    bots(state, infos);
    crate::combat::attack(state, infos, dt);
    crate::motion::locomotion(state, infos, dt);
    crate::motion::physics(state, infos, dt);
    crate::motion::player_bounds(state, infos);
    crate::combat::missile_contact(state, infos);
    crate::combat::particle(state, infos, dt);
    crate::combat::pain_timer(state, infos, dt);
    crate::combat::animation(state, infos, dt);
    crate::combat::age(state, infos, dt);
}

} // verus!
