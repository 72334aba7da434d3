//! The snapshot's binary form: a little-endian, length-prefixed byte format
//! written and parsed by the engine itself, so that what is saved is exactly
//! what restores.
//!
//! Every scalar is eight bytes little-endian.  A string is its byte length
//! followed by its UTF-8 bytes.  The round phase is a tag and two payload
//! scalars (zero where the phase has none).  The actor list is its count
//! followed by the actors, each as two names and its state scalars.

use vstd::prelude::*;

use vstd::bytes::{
    lemma_auto_spec_u64_to_from_le_bytes, spec_u64_from_le_bytes, spec_u64_to_le_bytes,
    u64_from_le_bytes, u64_to_le_bytes,
};

use crate::arena::Handle;
use crate::snapshot::{ActorSnapshot, StateSnapshot};
use crate::state::{ActorState, Clock, Color, GameState, Timer};
use crate::vec2::Vec2;

verus! {

/// One scalar, as eight little-endian bytes.
pub open spec fn enc_u64(x: u64) -> Seq<u8> {
    spec_u64_to_le_bytes(x)
}

/// A signed scalar: its two's-complement bits.
pub open spec fn enc_i64(x: i64) -> Seq<u8> {
    enc_u64(x as u64)
}

/// A scalar list, front to back.
pub open spec fn enc_i64_seq(l: Seq<i64>) -> Seq<u8>
    decreases l.len(),
{
    if l.len() == 0 {
        Seq::empty()
    } else {
        enc_i64(l[0]) + enc_i64_seq(l.drop_first())
    }
}

/// A scalar list encodes to eight bytes per element.
pub proof fn lemma_enc_i64_seq_len(l: Seq<i64>)
    ensures
        enc_i64_seq(l).len() == 8 * l.len(),
    decreases l.len(),
{
    lemma_auto_spec_u64_to_from_le_bytes();
    if l.len() > 0 {
        lemma_enc_i64_seq_len(l.drop_first());
    }
}

/// Appending a scalar appends its bytes.
pub proof fn lemma_enc_i64_seq_push(l: Seq<i64>, x: i64)
    ensures
        enc_i64_seq(l.push(x)) == enc_i64_seq(l) + enc_i64(x),
    decreases l.len(),
{
    if l.len() == 0 {
        assert(l.push(x).drop_first() =~= Seq::<i64>::empty());
        assert(l.push(x)[0] == x);
        assert(enc_i64_seq(Seq::<i64>::empty()) =~= Seq::<u8>::empty());
        assert(enc_i64_seq(l.push(x)) =~= enc_i64(x) + Seq::<u8>::empty());
        assert(enc_i64(x) + Seq::<u8>::empty() =~= enc_i64(x));
        assert(enc_i64_seq(l) + enc_i64(x) =~= enc_i64(x));
    } else {
        assert(l.push(x).drop_first() =~= l.drop_first().push(x));
        lemma_enc_i64_seq_push(l.drop_first(), x);
        assert(enc_i64_seq(l.push(x)) == enc_i64(l[0]) + enc_i64_seq(l.drop_first().push(x)));
        assert(enc_i64(l[0]) + (enc_i64_seq(l.drop_first()) + enc_i64(x)) =~= (enc_i64(l[0])
            + enc_i64_seq(l.drop_first())) + enc_i64(x));
    }
}

/// A string: its UTF-8 byte count, then those bytes.
pub open spec fn enc_str(s: Seq<char>) -> Seq<u8> {
    enc_u64(vstd::utf8::encode_utf8(s).len() as u64) + vstd::utf8::encode_utf8(s)
}

/// The round phase, as three scalars: a tag and two payloads.
pub open spec fn gs_scalars(gs: GameState) -> Seq<i64> {
    match gs {
        GameState::Countdown { timer } => seq![0i64, timer.timer, timer.end_time],
        GameState::Spawning { mobs_left_to_spawn, mobs_total } => seq![
            1i64,
            mobs_left_to_spawn as i64,
            mobs_total as i64,
        ],
        GameState::WaitForDefeat => seq![2i64, 0i64, 0i64],
        GameState::WaitForRespawn { timer } => seq![3i64, timer.timer, timer.end_time],
        GameState::ReadyToRespawn => seq![4i64, 0i64, 0i64],
    }
}

/// The scalar triple a parsed round phase comes from, when it is one.
pub open spec fn spec_gs_from_scalars(l: Seq<i64>) -> Option<GameState> {
    if l.len() != 3 {
        None
    } else if l[0] == 0 {
        Some(GameState::Countdown { timer: Timer { timer: l[1], end_time: l[2] } })
    } else if l[0] == 1 && 0 <= l[1] <= u32::MAX && 0 <= l[2] <= u32::MAX {
        Some(
            GameState::Spawning { mobs_left_to_spawn: l[1] as u32, mobs_total: l[2] as u32 },
        )
    } else if l[0] == 2 && l[1] == 0 && l[2] == 0 {
        Some(GameState::WaitForDefeat)
    } else if l[0] == 3 {
        Some(GameState::WaitForRespawn { timer: Timer { timer: l[1], end_time: l[2] } })
    } else if l[0] == 4 && l[1] == 0 && l[2] == 0 {
        Some(GameState::ReadyToRespawn)
    } else {
        None
    }
}

/// Parsing a phase's own scalars gives the phase back.
pub proof fn lemma_gs_scalars_round_trip(gs: GameState)
    ensures
        spec_gs_from_scalars(gs_scalars(gs)) == Some(gs),
{
}

/// The mutable actor state, flattened to scalars in field order.
pub open spec fn state_scalars(st: ActorState) -> Seq<i64> {
    seq![
        st.weapon_cooldown,
        st.pos.x,
        st.pos.y,
        st.locomotion_dir.x,
        st.locomotion_dir.y,
        st.vel.x,
        st.vel.y,
        st.attack_dir.x,
        st.attack_dir.y,
        (st.owner.index as u64) as i64,
        st.owner.generation as i64,
        st.health,
        st.color.r,
        st.color.g,
        st.color.b,
        st.color.a,
        st.pain_timer.timer,
        st.pain_timer.end_time,
        st.frame,
        st.facing.x,
        st.facing.y,
        st.age,
    ]
}

/// The actor state a parsed scalar row comes from, when it is one: the
/// owner's slot index must fit back into a machine word.
pub open spec fn spec_state_from_scalars(l: Seq<i64>) -> Option<ActorState> {
    if l.len() != 22 {
        None
    } else if !(0 <= (l[9] as u64) <= usize::MAX) {
        None
    } else {
        Some(
            ActorState {
                weapon_cooldown: l[0],
                pos: Vec2 { x: l[1], y: l[2] },
                locomotion_dir: Vec2 { x: l[3], y: l[4] },
                vel: Vec2 { x: l[5], y: l[6] },
                attack_dir: Vec2 { x: l[7], y: l[8] },
                owner: Handle { index: (l[9] as u64) as usize, generation: l[10] as u64 },
                health: l[11],
                color: Color { r: l[12], g: l[13], b: l[14], a: l[15] },
                pain_timer: Timer { timer: l[16], end_time: l[17] },
                frame: l[18],
                facing: Vec2 { x: l[19], y: l[20] },
                age: l[21],
            },
        )
    }
}

/// Parsing a state's own scalars gives the state back.
pub proof fn lemma_state_scalars_round_trip(st: ActorState)
    ensures
        spec_state_from_scalars(state_scalars(st)) == Some(st),
{
    let l = state_scalars(st);
    let oi: u64 = st.owner.index as u64;
    let og: u64 = st.owner.generation;
    assert(l[9] == oi as i64);
    assert(((oi as i64) as u64) == oi) by (bit_vector);
    assert(0 <= (l[9] as u64) <= usize::MAX);
    assert((oi as usize) == st.owner.index);
    assert(((og as i64) as u64) == og) by (bit_vector);
}

/// One persisted actor: two names and the state scalars.
pub open spec fn enc_actor(a: ActorSnapshot) -> Seq<u8> {
    enc_str(a.info@) + (enc_str(a.weapon@) + enc_i64_seq(state_scalars(a.state)))
}

/// The persisted actor list, front to back.
pub open spec fn enc_actor_list(l: Seq<ActorSnapshot>) -> Seq<u8>
    decreases l.len(),
{
    if l.len() == 0 {
        Seq::empty()
    } else {
        enc_actor(l[0]) + enc_actor_list(l.drop_first())
    }
}

/// Appending an actor appends its bytes.
pub proof fn lemma_enc_actor_list_push(l: Seq<ActorSnapshot>, a: ActorSnapshot)
    ensures
        enc_actor_list(l.push(a)) == enc_actor_list(l) + enc_actor(a),
    decreases l.len(),
{
    if l.len() == 0 {
        assert(l.push(a).drop_first() =~= Seq::<ActorSnapshot>::empty());
        assert(l.push(a)[0] == a);
        assert(enc_actor_list(Seq::<ActorSnapshot>::empty()) =~= Seq::<u8>::empty());
        assert(enc_actor_list(l.push(a)) =~= enc_actor(a) + Seq::<u8>::empty());
        assert(enc_actor(a) + Seq::<u8>::empty() =~= enc_actor(a));
        assert(enc_actor_list(l) + enc_actor(a) =~= enc_actor(a));
    } else {
        assert(l.push(a).drop_first() =~= l.drop_first().push(a));
        lemma_enc_actor_list_push(l.drop_first(), a);
        assert(enc_actor_list(l.push(a)) == enc_actor(l[0]) + enc_actor_list(
            l.drop_first().push(a),
        ));
        assert(enc_actor(l[0]) + (enc_actor_list(l.drop_first()) + enc_actor(a)) =~= (enc_actor(
            l[0],
        ) + enc_actor_list(l.drop_first())) + enc_actor(a));
    }
}

/// The whole snapshot's byte form.
pub open spec fn spec_encode(s: StateSnapshot) -> Seq<u8> {
    enc_i64(s.spawner.tick) + (enc_u64(s.me as u64) + (enc_u64(s.round as u64) + (enc_i64_seq(
        gs_scalars(s.game_state),
    ) + (enc_u64(s.actors@.len() as u64) + enc_actor_list(s.actors@)))))
}

/// Appends raw bytes.
fn push_bytes(out: &mut Vec<u8>, b: &[u8])
    ensures
        final(out)@ == old(out)@ + b@,
{
    let n = b.len();
    let mut i: usize = 0;
    while i < n
        invariant
            i <= n,
            n == b@.len(),
            out@ == old(out)@ + b@.subrange(0, i as int),
        decreases n - i,
    {
        let x = b[i];
        out.push(x);
        proof {
            assert(out@ =~= old(out)@ + b@.subrange(0, i + 1));
        }
        i = i + 1;
    }
    proof {
        assert(out@ =~= old(out)@ + b@);
    }
}

/// Appends one scalar.
fn push_u64(out: &mut Vec<u8>, x: u64)
    ensures
        final(out)@ == old(out)@ + enc_u64(x),
{
    let b = u64_to_le_bytes(x);
    push_bytes(out, b.as_slice());
}

/// Appends one signed scalar.
fn push_i64(out: &mut Vec<u8>, x: i64)
    ensures
        final(out)@ == old(out)@ + enc_i64(x),
{
    push_u64(out, x as u64);
}

/// Appends a scalar list.
fn push_i64_list(out: &mut Vec<u8>, l: &Vec<i64>)
    ensures
        final(out)@ == old(out)@ + enc_i64_seq(l@),
{
    let n = l.len();
    let mut i: usize = 0;
    while i < n
        invariant
            i <= n,
            n == l@.len(),
            out@ == old(out)@ + enc_i64_seq(l@.subrange(0, i as int)),
        decreases n - i,
    {
        let ghost pre = l@.subrange(0, i as int);
        push_i64(out, l[i]);
        proof {
            assert(l@.subrange(0, i + 1) =~= pre.push(l@[i as int]));
            lemma_enc_i64_seq_push(pre, l@[i as int]);
            assert(out@ =~= old(out)@ + enc_i64_seq(l@.subrange(0, i + 1)));
        }
        i = i + 1;
    }
    proof {
        assert(l@.subrange(0, n as int) =~= l@);
    }
}

/// Appends a length-prefixed string.
fn push_str(out: &mut Vec<u8>, s: &str)
    ensures
        final(out)@ == old(out)@ + enc_str(s@),
        vstd::utf8::encode_utf8(s@).len() <= usize::MAX,
{
    let b = s.as_bytes();
    let n = b.len();
    push_u64(out, n as u64);
    push_bytes(out, b);
    proof {
        assert(out@ =~= old(out)@ + enc_str(s@));
    }
}

/// Flattens an actor state to its scalar row.
fn state_to_scalars(st: &ActorState) -> (r: Vec<i64>)
    ensures
        r@ == state_scalars(*st),
{
    let mut v: Vec<i64> = Vec::new();
    v.push(st.weapon_cooldown);
    v.push(st.pos.x);
    v.push(st.pos.y);
    v.push(st.locomotion_dir.x);
    v.push(st.locomotion_dir.y);
    v.push(st.vel.x);
    v.push(st.vel.y);
    v.push(st.attack_dir.x);
    v.push(st.attack_dir.y);
    v.push((st.owner.index as u64) as i64);
    v.push(st.owner.generation as i64);
    v.push(st.health);
    v.push(st.color.r);
    v.push(st.color.g);
    v.push(st.color.b);
    v.push(st.color.a);
    v.push(st.pain_timer.timer);
    v.push(st.pain_timer.end_time);
    v.push(st.frame);
    v.push(st.facing.x);
    v.push(st.facing.y);
    v.push(st.age);
    proof {
        assert(v@ =~= state_scalars(*st));
    }
    v
}

/// Flattens the round phase to its scalar triple.
fn gs_to_scalars(gs: &GameState) -> (r: Vec<i64>)
    ensures
        r@ == gs_scalars(*gs),
{
    let mut v: Vec<i64> = Vec::new();
    match gs {
        GameState::Countdown { timer } => {
            v.push(0);
            v.push(timer.timer);
            v.push(timer.end_time);
        },
        GameState::Spawning { mobs_left_to_spawn, mobs_total } => {
            v.push(1);
            v.push(*mobs_left_to_spawn as i64);
            v.push(*mobs_total as i64);
        },
        GameState::WaitForDefeat => {
            v.push(2);
            v.push(0);
            v.push(0);
        },
        GameState::WaitForRespawn { timer } => {
            v.push(3);
            v.push(timer.timer);
            v.push(timer.end_time);
        },
        GameState::ReadyToRespawn => {
            v.push(4);
            v.push(0);
            v.push(0);
        },
    }
    proof {
        assert(v@ =~= gs_scalars(*gs));
    }
    v
}

/// Serializes a snapshot to its byte form.
pub fn encode_snapshot(s: &StateSnapshot) -> (out: Vec<u8>)
    ensures
        out@ == spec_encode(*s),
        snap_enc_wf(*s),
{
    let mut out: Vec<u8> = Vec::new();
    push_i64(&mut out, s.spawner.tick);
    push_u64(&mut out, s.me as u64);
    push_u64(&mut out, s.round as u64);
    let gsv = gs_to_scalars(&s.game_state);
    push_i64_list(&mut out, &gsv);
    let n = s.actors.len();
    push_u64(&mut out, n as u64);
    let ghost header = out@;
    let mut i: usize = 0;
    while i < n
        invariant
            i <= n,
            n == s.actors@.len(),
            out@ == header + enc_actor_list(s.actors@.subrange(0, i as int)),
            forall|j: int|
                0 <= j < i ==> vstd::utf8::encode_utf8((#[trigger] s.actors@[j]).info@).len()
                    <= usize::MAX && vstd::utf8::encode_utf8(s.actors@[j].weapon@).len()
                    <= usize::MAX,
        decreases n - i,
    {
        let ghost pre = s.actors@.subrange(0, i as int);
        let a = &s.actors[i];
        push_str(&mut out, a.info.as_str());
        push_str(&mut out, a.weapon.as_str());
        let sv = state_to_scalars(&a.state);
        push_i64_list(&mut out, &sv);
        proof {
            assert(s.actors@.subrange(0, i + 1) =~= pre.push(s.actors@[i as int]));
            lemma_enc_actor_list_push(pre, s.actors@[i as int]);
            assert(out@ =~= header + enc_actor_list(s.actors@.subrange(0, i + 1)));
        }
        i = i + 1;
    }
    proof {
        assert(s.actors@.subrange(0, n as int) =~= s.actors@);
        assert(out@ =~= spec_encode(*s));
    }
    out
}


/// Splitting a known concatenation of two byte runs inside a buffer.
pub proof fn lemma_peel(bytes: Seq<u8>, pos: int, a: Seq<u8>, b: Seq<u8>)
    requires
        0 <= pos,
        pos + a.len() + b.len() <= bytes.len(),
        bytes.subrange(pos, pos + a.len() + b.len()) == a + b,
    ensures
        bytes.subrange(pos, pos + a.len()) == a,
        bytes.subrange(pos + a.len(), pos + a.len() + b.len()) == b,
{
    assert(bytes.subrange(pos, pos + a.len()) =~= a) by {
        assert forall|i: int| 0 <= i < a.len() implies bytes[pos + i] == a[i] by {
            assert((a + b)[i] == a[i]);
            assert(bytes.subrange(pos, pos + a.len() + b.len())[i] == bytes[pos + i]);
        }
    }
    assert(bytes.subrange(pos + a.len(), pos + a.len() + b.len()) =~= b) by {
        assert forall|i: int| 0 <= i < b.len() implies bytes[pos + a.len() + i] == b[i] by {
            assert((a + b)[a.len() + i] == b[i]);
            assert(bytes.subrange(pos, pos + a.len() + b.len())[a.len() + i] == bytes[pos + a.len()
                + i]);
        }
    }
}

/// Joining two adjacent byte runs of a buffer.
pub proof fn lemma_join(bytes: Seq<u8>, pos: int, mid: int, end: int)
    requires
        0 <= pos <= mid <= end <= bytes.len(),
    ensures
        bytes.subrange(pos, end) == bytes.subrange(pos, mid) + bytes.subrange(mid, end),
{
    assert(bytes.subrange(pos, end) =~= bytes.subrange(pos, mid) + bytes.subrange(mid, end));
}

/// A concatenation's parts are its prefix and its suffix.
pub proof fn lemma_prefix(whole: Seq<u8>, a: Seq<u8>, rest: Seq<u8>)
    requires
        whole == a + rest,
    ensures
        whole.len() == a.len() + rest.len(),
        whole.subrange(0, a.len() as int) == a,
        whole.subrange(a.len() as int, whole.len() as int) == rest,
{
    assert(whole.subrange(0, a.len() as int) =~= a);
    assert(whole.subrange(a.len() as int, whole.len() as int) =~= rest);
}

/// Equal byte forms of equally long scalar lists come from equal lists.
pub proof fn lemma_enc_i64_seq_inj(l1: Seq<i64>, l2: Seq<i64>)
    requires
        l1.len() == l2.len(),
        enc_i64_seq(l1) == enc_i64_seq(l2),
    ensures
        l1 == l2,
    decreases l1.len(),
{
    lemma_auto_spec_u64_to_from_le_bytes();
    if l1.len() > 0 {
        let e1 = enc_i64(l1[0]);
        let e2 = enc_i64(l2[0]);
        let r1 = enc_i64_seq(l1.drop_first());
        let r2 = enc_i64_seq(l2.drop_first());
        let whole = enc_i64_seq(l1);
        assert(whole == e1 + r1 && whole == e2 + r2);
        lemma_prefix(whole, e1, r1);
        lemma_prefix(whole, e2, r2);
        assert(e1 == e2 && r1 == r2);
        assert(spec_u64_from_le_bytes(enc_u64(l1[0] as u64)) == l1[0] as u64);
        assert(spec_u64_from_le_bytes(enc_u64(l2[0] as u64)) == l2[0] as u64);
        assert(l1[0] as u64 == l2[0] as u64);
        let x1 = l1[0];
        let x2 = l2[0];
        assert(x1 as u64 == x2 as u64 ==> x1 == x2) by (bit_vector);
        lemma_enc_i64_seq_inj(l1.drop_first(), l2.drop_first());
        assert forall|i: int| 0 <= i < l1.len() implies l1[i] == l2[i] by {
            if i > 0 {
                assert(l1.drop_first()[i - 1] == l1[i]);
                assert(l2.drop_first()[i - 1] == l2[i]);
            }
        }
        assert(l1 =~= l2);
    } else {
        assert(l1 =~= l2);
    }
}

/// Every string the snapshot holds fits the machine's byte-length range, so
/// its length prefix is exact.
pub open spec fn snap_enc_wf(s: StateSnapshot) -> bool {
    forall|j: int|
        0 <= j < s.actors@.len() ==> vstd::utf8::encode_utf8(
            (#[trigger] s.actors@[j]).info@,
        ).len() <= usize::MAX && vstd::utf8::encode_utf8(s.actors@[j].weapon@).len() <= usize::MAX
}

/// The two snapshots carry the same content, field for field.
pub open spec fn snap_same(a: StateSnapshot, b: StateSnapshot) -> bool {
    &&& a.spawner == b.spawner
    &&& a.me == b.me
    &&& a.round == b.round
    &&& a.game_state == b.game_state
    &&& a.actors@.len() == b.actors@.len()
    &&& forall|j: int|
        0 <= j < a.actors@.len() ==> (#[trigger] a.actors@[j]).info@ == b.actors@[j].info@
            && a.actors@[j].weapon@ == b.actors@[j].weapon@ && a.actors@[j].state
            == b.actors@[j].state
}

/// The byte layout of an encoded snapshot: where each header field and the
/// actor list sit.
proof fn lemma_encode_parts(bytes: Seq<u8>, s: StateSnapshot)
    requires
        bytes == spec_encode(s),
    ensures
        bytes.len() == 56 + enc_actor_list(s.actors@).len(),
        bytes.subrange(0, 8) == enc_i64(s.spawner.tick),
        bytes.subrange(8, 16) == enc_u64(s.me as u64),
        bytes.subrange(16, 24) == enc_u64(s.round as u64),
        bytes.subrange(24, 48) == enc_i64_seq(gs_scalars(s.game_state)),
        bytes.subrange(48, 56) == enc_u64(s.actors@.len() as u64),
        bytes.subrange(56, bytes.len() as int) == enc_actor_list(s.actors@),
    decreases 0int,
{
    lemma_auto_spec_u64_to_from_le_bytes();
    lemma_enc_i64_seq_len(gs_scalars(s.game_state));
    let r1 = enc_u64(s.me as u64) + (enc_u64(s.round as u64) + (enc_i64_seq(
        gs_scalars(s.game_state),
    ) + (enc_u64(s.actors@.len() as u64) + enc_actor_list(s.actors@))));
    lemma_prefix(bytes, enc_i64(s.spawner.tick), r1);
    let r2 = enc_u64(s.round as u64) + (enc_i64_seq(gs_scalars(s.game_state)) + (enc_u64(
        s.actors@.len() as u64,
    ) + enc_actor_list(s.actors@)));
    lemma_peel(bytes, 8, enc_u64(s.me as u64), r2);
    let r3 = enc_i64_seq(gs_scalars(s.game_state)) + (enc_u64(s.actors@.len() as u64)
        + enc_actor_list(s.actors@));
    lemma_peel(bytes, 16, enc_u64(s.round as u64), r3);
    let r4 = enc_u64(s.actors@.len() as u64) + enc_actor_list(s.actors@);
    lemma_peel(bytes, 24, enc_i64_seq(gs_scalars(s.game_state)), r4);
    lemma_peel(bytes, 48, enc_u64(s.actors@.len() as u64), enc_actor_list(s.actors@));
}

/// One step of the actor list's byte layout: the list from position `i` is
/// the actor at `i` followed by the list from `i + 1`.
proof fn lemma_actor_list_step(l: Seq<ActorSnapshot>, i: int)
    requires
        0 <= i < l.len(),
    ensures
        enc_actor_list(l.skip(i)) == enc_actor(l[i]) + enc_actor_list(l.skip(i + 1)),
{
    assert(l.skip(i)[0] == l[i]);
    assert(l.skip(i).drop_first() =~= l.skip(i + 1));
    assert(l.skip(i).len() > 0);
}

/// Two signed scalars with the same byte form are the same.
proof fn lemma_i64_bytes_inj(x1: i64, x2: i64)
    requires
        enc_i64(x1) == enc_i64(x2),
    ensures
        x1 == x2,
{
    lemma_auto_spec_u64_to_from_le_bytes();
    assert(x1 as u64 == x2 as u64);
    assert(x1 as u64 == x2 as u64 ==> x1 == x2) by (bit_vector);
}

/// A buffer beginning with two string encodings begins with the same
/// string, and the remainders agree.
proof fn lemma_str_prefix_inj(buf: Seq<u8>, sq1: Seq<char>, r1: Seq<u8>, sq2: Seq<char>, r2: Seq<u8>)
    requires
        buf == enc_str(sq1) + r1,
        buf == enc_str(sq2) + r2,
        vstd::utf8::encode_utf8(sq1).len() <= usize::MAX,
        vstd::utf8::encode_utf8(sq2).len() <= usize::MAX,
    ensures
        sq1 == sq2,
        r1 == r2,
{
    lemma_auto_spec_u64_to_from_le_bytes();
    let u1 = vstd::utf8::encode_utf8(sq1);
    let u2 = vstd::utf8::encode_utf8(sq2);
    assert(buf =~= enc_u64(u1.len() as u64) + (u1 + r1));
    assert(buf =~= enc_u64(u2.len() as u64) + (u2 + r2));
    lemma_prefix(buf, enc_u64(u1.len() as u64), u1 + r1);
    lemma_prefix(buf, enc_u64(u2.len() as u64), u2 + r2);
    assert(enc_u64(u1.len() as u64) == enc_u64(u2.len() as u64));
    assert(u1.len() as u64 == u2.len() as u64);
    assert(u1.len() == u2.len());
    let tail = buf.subrange(8, buf.len() as int);
    lemma_prefix(tail, u1, r1);
    lemma_prefix(tail, u2, r2);
    assert(u1 == u2 && r1 == r2);
    broadcast use vstd::utf8::encode_utf8_decode_utf8;

    assert(vstd::utf8::decode_utf8(u1) == sq1);
    assert(vstd::utf8::decode_utf8(u2) == sq2);
}

/// A buffer beginning with two actor encodings begins with the same actor,
/// and the remainders agree.
proof fn lemma_actor_head_inj(
    whole: Seq<u8>,
    a1: ActorSnapshot,
    r1: Seq<u8>,
    a2: ActorSnapshot,
    r2: Seq<u8>,
)
    requires
        whole == enc_actor(a1) + r1,
        whole == enc_actor(a2) + r2,
        vstd::utf8::encode_utf8(a1.info@).len() <= usize::MAX,
        vstd::utf8::encode_utf8(a1.weapon@).len() <= usize::MAX,
        vstd::utf8::encode_utf8(a2.info@).len() <= usize::MAX,
        vstd::utf8::encode_utf8(a2.weapon@).len() <= usize::MAX,
    ensures
        a1.info@ == a2.info@,
        a1.weapon@ == a2.weapon@,
        a1.state == a2.state,
        r1 == r2,
{
    lemma_auto_spec_u64_to_from_le_bytes();
    let t1 = enc_i64_seq(state_scalars(a1.state));
    let t2 = enc_i64_seq(state_scalars(a2.state));
    assert(whole =~= enc_str(a1.info@) + ((enc_str(a1.weapon@) + t1) + r1));
    assert(whole =~= enc_str(a2.info@) + ((enc_str(a2.weapon@) + t2) + r2));
    lemma_str_prefix_inj(
        whole,
        a1.info@,
        (enc_str(a1.weapon@) + t1) + r1,
        a2.info@,
        (enc_str(a2.weapon@) + t2) + r2,
    );
    let tail = (enc_str(a1.weapon@) + t1) + r1;
    assert(tail =~= enc_str(a1.weapon@) + (t1 + r1));
    assert(tail =~= enc_str(a2.weapon@) + (t2 + r2));
    lemma_str_prefix_inj(tail, a1.weapon@, t1 + r1, a2.weapon@, t2 + r2);
    let tail2 = t1 + r1;
    lemma_enc_i64_seq_len(state_scalars(a1.state));
    lemma_enc_i64_seq_len(state_scalars(a2.state));
    lemma_prefix(tail2, t1, r1);
    lemma_prefix(tail2, t2, r2);
    assert(t1 == t2 && r1 == r2);
    lemma_enc_i64_seq_inj(state_scalars(a1.state), state_scalars(a2.state));
    lemma_state_scalars_round_trip(a1.state);
    lemma_state_scalars_round_trip(a2.state);
    assert(a1.state == a2.state);
}

/// Two equally long actor lists with the same byte form hold the same
/// content.
proof fn lemma_enc_actor_list_inj(l1: Seq<ActorSnapshot>, l2: Seq<ActorSnapshot>)
    requires
        l1.len() == l2.len(),
        enc_actor_list(l1) == enc_actor_list(l2),
        forall|j: int|
            0 <= j < l1.len() ==> vstd::utf8::encode_utf8((#[trigger] l1[j]).info@).len()
                <= usize::MAX && vstd::utf8::encode_utf8(l1[j].weapon@).len() <= usize::MAX,
        forall|j: int|
            0 <= j < l2.len() ==> vstd::utf8::encode_utf8((#[trigger] l2[j]).info@).len()
                <= usize::MAX && vstd::utf8::encode_utf8(l2[j].weapon@).len() <= usize::MAX,
    ensures
        forall|j: int|
            0 <= j < l1.len() ==> (#[trigger] l1[j]).info@ == l2[j].info@ && l1[j].weapon@
                == l2[j].weapon@ && l1[j].state == l2[j].state,
    decreases l1.len(),
{
    if l1.len() > 0 {
        let whole = enc_actor_list(l1);
        assert(whole == enc_actor(l1[0]) + enc_actor_list(l1.drop_first()));
        assert(whole == enc_actor(l2[0]) + enc_actor_list(l2.drop_first()));
        lemma_actor_head_inj(
            whole,
            l1[0],
            enc_actor_list(l1.drop_first()),
            l2[0],
            enc_actor_list(l2.drop_first()),
        );
        assert forall|j: int|
            0 <= j < l1.drop_first().len() implies vstd::utf8::encode_utf8(
            (#[trigger] l1.drop_first()[j]).info@,
        ).len() <= usize::MAX && vstd::utf8::encode_utf8(l1.drop_first()[j].weapon@).len()
            <= usize::MAX by {
            assert(l1.drop_first()[j] == l1[j + 1]);
        }
        assert forall|j: int|
            0 <= j < l2.drop_first().len() implies vstd::utf8::encode_utf8(
            (#[trigger] l2.drop_first()[j]).info@,
        ).len() <= usize::MAX && vstd::utf8::encode_utf8(l2.drop_first()[j].weapon@).len()
            <= usize::MAX by {
            assert(l2.drop_first()[j] == l2[j + 1]);
        }
        lemma_enc_actor_list_inj(l1.drop_first(), l2.drop_first());
        assert forall|j: int|
            0 <= j < l1.len() implies (#[trigger] l1[j]).info@ == l2[j].info@ && l1[j].weapon@
            == l2[j].weapon@ && l1[j].state == l2[j].state by {
            if j > 0 {
                assert(l1.drop_first()[j - 1] == l1[j]);
                assert(l2.drop_first()[j - 1] == l2[j]);
            }
        }
    }
}

/// Equal byte forms come from snapshots with the same content: the format
/// never encodes two different snapshots to the same buffer.
pub proof fn lemma_encode_injective(s1: StateSnapshot, s2: StateSnapshot)
    requires
        snap_enc_wf(s1),
        snap_enc_wf(s2),
        spec_encode(s1) == spec_encode(s2),
    ensures
        snap_same(s1, s2),
{
    lemma_auto_spec_u64_to_from_le_bytes();
    let whole = spec_encode(s1);
    let rest1 = enc_u64(s1.me as u64) + (enc_u64(s1.round as u64) + (enc_i64_seq(
        gs_scalars(s1.game_state),
    ) + (enc_u64(s1.actors@.len() as u64) + enc_actor_list(s1.actors@))));
    let rest2 = enc_u64(s2.me as u64) + (enc_u64(s2.round as u64) + (enc_i64_seq(
        gs_scalars(s2.game_state),
    ) + (enc_u64(s2.actors@.len() as u64) + enc_actor_list(s2.actors@))));
    lemma_prefix(whole, enc_i64(s1.spawner.tick), rest1);
    lemma_prefix(whole, enc_i64(s2.spawner.tick), rest2);
    lemma_i64_bytes_inj(s1.spawner.tick, s2.spawner.tick);
    assert(s1.spawner == s2.spawner);
    let restb1 = enc_u64(s1.round as u64) + (enc_i64_seq(gs_scalars(s1.game_state)) + (enc_u64(
        s1.actors@.len() as u64,
    ) + enc_actor_list(s1.actors@)));
    let restb2 = enc_u64(s2.round as u64) + (enc_i64_seq(gs_scalars(s2.game_state)) + (enc_u64(
        s2.actors@.len() as u64,
    ) + enc_actor_list(s2.actors@)));
    lemma_prefix(rest1, enc_u64(s1.me as u64), restb1);
    lemma_prefix(rest1, enc_u64(s2.me as u64), restb2);
    assert(s1.me as u64 == s2.me as u64);
    assert(s1.me == s2.me);
    let restc1 = enc_i64_seq(gs_scalars(s1.game_state)) + (enc_u64(s1.actors@.len() as u64)
        + enc_actor_list(s1.actors@));
    let restc2 = enc_i64_seq(gs_scalars(s2.game_state)) + (enc_u64(s2.actors@.len() as u64)
        + enc_actor_list(s2.actors@));
    lemma_prefix(restb1, enc_u64(s1.round as u64), restc1);
    lemma_prefix(restb1, enc_u64(s2.round as u64), restc2);
    assert(s1.round as u64 == s2.round as u64);
    assert(s1.round == s2.round);
    lemma_enc_i64_seq_len(gs_scalars(s1.game_state));
    lemma_enc_i64_seq_len(gs_scalars(s2.game_state));
    let restd1 = enc_u64(s1.actors@.len() as u64) + enc_actor_list(s1.actors@);
    let restd2 = enc_u64(s2.actors@.len() as u64) + enc_actor_list(s2.actors@);
    lemma_prefix(restc1, enc_i64_seq(gs_scalars(s1.game_state)), restd1);
    lemma_prefix(restc1, enc_i64_seq(gs_scalars(s2.game_state)), restd2);
    lemma_enc_i64_seq_inj(gs_scalars(s1.game_state), gs_scalars(s2.game_state));
    lemma_gs_scalars_round_trip(s1.game_state);
    lemma_gs_scalars_round_trip(s2.game_state);
    assert(s1.game_state == s2.game_state);
    lemma_prefix(restd1, enc_u64(s1.actors@.len() as u64), enc_actor_list(s1.actors@));
    lemma_prefix(restd1, enc_u64(s2.actors@.len() as u64), enc_actor_list(s2.actors@));
    vstd::std_specs::vec::axiom_spec_len(&s1.actors);
    vstd::std_specs::vec::axiom_spec_len(&s2.actors);
    assert(s1.actors@.len() as u64 == s2.actors@.len() as u64);
    assert(s1.actors@.len() == s2.actors@.len());
    lemma_enc_actor_list_inj(s1.actors@, s2.actors@);
}


/// Relies on `String::from_utf8`: it accepts exactly valid UTF-8 and yields
/// the string those bytes spell.
#[verifier::external_body]
fn string_from_utf8(v: Vec<u8>) -> (r: Option<String>)
    ensures
        match r {
            Some(s) => vstd::utf8::valid_utf8(v@) && s@ == vstd::utf8::decode_utf8(v@),
            None => !vstd::utf8::valid_utf8(v@),
        },
{
    match String::from_utf8(v) {
        Ok(s) => Some(s),
        Err(_) => None,
    }
}

/// Reads one scalar.
fn parse_u64(bytes: &Vec<u8>, pos: usize) -> (r: Option<(u64, usize)>)
    ensures
        match r {
            Some(v) => v.1 == pos + 8 && pos + 8 <= bytes@.len() && bytes@.subrange(
                pos as int,
                pos + 8,
            ) == enc_u64(v.0),
            None => pos + 8 > bytes@.len(),
        },
        forall|x: u64|
            pos + 8 <= bytes@.len() && bytes@.subrange(pos as int, pos + 8) == enc_u64(x)
                ==> r == Some((x, (pos + 8) as usize)),
{
    proof {
        lemma_auto_spec_u64_to_from_le_bytes();
    }
    if bytes.len() < 8 || pos > bytes.len() - 8 {
        return None;
    }
    let s = vstd::slice::slice_subrange(bytes.as_slice(), pos, pos + 8);
    let v = u64_from_le_bytes(s);
    proof {
        assert forall|x: u64|
            pos + 8 <= bytes@.len() && bytes@.subrange(pos as int, pos + 8) == enc_u64(x) implies v
            == x by {
            assert(spec_u64_from_le_bytes(enc_u64(x)) == x);
        }
    }
    Some((v, pos + 8))
}

/// Reads one signed scalar.
fn parse_i64(bytes: &Vec<u8>, pos: usize) -> (r: Option<(i64, usize)>)
    ensures
        match r {
            Some(v) => v.1 == pos + 8 && pos + 8 <= bytes@.len() && bytes@.subrange(
                pos as int,
                pos + 8,
            ) == enc_i64(v.0),
            None => pos + 8 > bytes@.len(),
        },
        forall|x: i64|
            pos + 8 <= bytes@.len() && bytes@.subrange(pos as int, pos + 8) == enc_i64(x)
                ==> r == Some((x, (pos + 8) as usize)),
{
    match parse_u64(bytes, pos) {
        Some((v, p2)) => {
            let x = v as i64;
            proof {
                assert((v as i64) as u64 == v) by (bit_vector);
                assert forall|y: i64|
                    pos + 8 <= bytes@.len() && bytes@.subrange(pos as int, pos + 8) == enc_i64(y)
                    implies x == y by {
                    assert(v == y as u64);
                    assert((y as u64) as i64 == y) by (bit_vector);
                }
            }
            Some((x, p2))
        },
        None => None,
    }
}

/// Reads a scalar list of a given length.
fn parse_i64_list(bytes: &Vec<u8>, pos: usize, count: usize) -> (r: Option<(Vec<i64>, usize)>)
    ensures
        match r {
            Some(v) => v.0@.len() == count && v.1 == pos + 8 * count && pos + 8 * count
                <= bytes@.len() && bytes@.subrange(pos as int, v.1 as int) == enc_i64_seq(v.0@),
            None => pos + 8 * count > bytes@.len(),
        },
        forall|l: Seq<i64>|
            l.len() == count && pos + 8 * count <= bytes@.len() && bytes@.subrange(
                pos as int,
                pos + 8 * count,
            ) == enc_i64_seq(l) ==> r is Some && r.unwrap().0@ == l,
{
    proof {
        lemma_auto_spec_u64_to_from_le_bytes();
    }
    if count > bytes.len() / 8 {
        proof {
            assert(8 * (bytes@.len() as int / 8) <= bytes@.len()) by (nonlinear_arith);
            assert(8 * (count as int) > bytes@.len()) by (nonlinear_arith)
                requires
                    count as int > bytes@.len() as int / 8,
                    8 * (bytes@.len() as int / 8) + 8 > bytes@.len(),
            ;
            vstd::arithmetic::div_mod::lemma_fundamental_div_mod(bytes@.len() as int, 8);
        }
        return None;
    }
    if pos > bytes.len() - 8 * count {
        return None;
    }
    let mut out: Vec<i64> = Vec::new();
    let mut p = pos;
    let mut i: usize = 0;
    while i < count
        invariant
            i <= count,
            p == pos + 8 * i,
            pos + 8 * count <= bytes@.len(),
            out@.len() == i,
            bytes@.subrange(pos as int, p as int) == enc_i64_seq(out@),
        decreases count - i,
    {
        let ghost pre = out@;
        match parse_i64(bytes, p) {
            Some((x, p2)) => {
                out.push(x);
                proof {
                    lemma_enc_i64_seq_push(pre, x);
                    lemma_join(bytes@, pos as int, p as int, p2 as int);
                    assert(bytes@.subrange(pos as int, p2 as int) == enc_i64_seq(out@));
                }
                p = p2;
            },
            None => {
                proof {
                    assert(false);
                }
            },
        }
        i = i + 1;
    }
    proof {
        assert forall|l: Seq<i64>|
            l.len() == count && pos + 8 * count <= bytes@.len() && bytes@.subrange(
                pos as int,
                pos + 8 * count,
            ) == enc_i64_seq(l) implies out@ == l by {
            lemma_enc_i64_seq_inj(out@, l);
        }
    }
    Some((out, p))
}

/// Reads a length-prefixed string.
fn parse_str(bytes: &Vec<u8>, pos: usize) -> (r: Option<(String, usize)>)
    ensures
        match r {
            Some(v) => pos <= v.1 <= bytes@.len() && bytes@.subrange(pos as int, v.1 as int)
                == enc_str(v.0@) && vstd::utf8::encode_utf8(v.0@).len() <= usize::MAX,
            None => true,
        },
        forall|sq: Seq<char>|
            str_fits_here(bytes@, pos as int, sq) ==> r is Some && r.unwrap().0@ == sq
                && r.unwrap().1 == pos + enc_str(sq).len(),
{
    proof {
        lemma_auto_spec_u64_to_from_le_bytes();
    }
    let (len64, p1) = match parse_u64(bytes, pos) {
        Some(v) => v,
        None => {
            proof {
                assert forall|sq: Seq<char>|
                    str_fits_here(bytes@, pos as int, sq) implies false by {
                    lemma_str_here_parts(bytes@, pos as int, sq);
                }
            }
            return None;
        },
    };
    proof {
        assert forall|sq: Seq<char>|
            str_fits_here(bytes@, pos as int, sq) implies len64 == vstd::utf8::encode_utf8(
            sq,
        ).len() as u64 by {
            lemma_str_here_parts(bytes@, pos as int, sq);
        }
    }
    if len64 > usize::MAX as u64 {
        proof {
            assert forall|sq: Seq<char>|
                str_fits_here(bytes@, pos as int, sq) implies false by {
                lemma_str_here_parts(bytes@, pos as int, sq);
            }
        }
        return None;
    }
    let len = len64 as usize;
    if len > bytes.len() - p1 {
        proof {
            assert forall|sq: Seq<char>|
                str_fits_here(bytes@, pos as int, sq) implies false by {
                lemma_str_here_parts(bytes@, pos as int, sq);
            }
        }
        return None;
    }
    let s = vstd::slice::slice_subrange(bytes.as_slice(), p1, p1 + len);
    let v = vstd::slice::slice_to_vec(s);
    match string_from_utf8(v) {
        Some(st) => {
            proof {
                broadcast use vstd::utf8::decode_utf8_encode_utf8;

                let u = bytes@.subrange(p1 as int, (p1 + len) as int);
                assert(vstd::utf8::encode_utf8(st@) == u);
                assert(enc_str(st@) =~= enc_u64(len64) + u);
                lemma_join(bytes@, pos as int, p1 as int, (p1 + len) as int);
                assert forall|sq: Seq<char>|
                    str_fits_here(bytes@, pos as int, sq) implies st@ == sq by {
                    lemma_str_here_parts(bytes@, pos as int, sq);
                    assert(vstd::utf8::encode_utf8(sq) == u);
                    broadcast use vstd::utf8::encode_utf8_decode_utf8;

                    assert(vstd::utf8::decode_utf8(u) == sq);
                    assert(st@ == vstd::utf8::decode_utf8(u));
                }
            }
            Some((st, p1 + len))
        },
        None => {
            proof {
                assert forall|sq: Seq<char>|
                    str_fits_here(bytes@, pos as int, sq) implies false by {
                    lemma_str_here_parts(bytes@, pos as int, sq);
                    let u = bytes@.subrange(p1 as int, (p1 + len) as int);
                    assert(vstd::utf8::encode_utf8(sq) == u);
                    broadcast use vstd::utf8::encode_utf8_valid_utf8;

                    assert(vstd::utf8::valid_utf8(u));
                }
            }
            None
        },
    }
}

/// The buffer holds exactly the encoding of `sq` at `pos`, with a length
/// the machine can hold.
pub open spec fn str_fits_here(bytes: Seq<u8>, pos: int, sq: Seq<char>) -> bool {
    &&& 0 <= pos
    &&& vstd::utf8::encode_utf8(sq).len() <= usize::MAX
    &&& pos + enc_str(sq).len() <= bytes.len()
    &&& bytes.subrange(pos, pos + enc_str(sq).len()) == enc_str(sq)
}

/// What holding a string encoding at `pos` gives: the length prefix sits in
/// the first eight bytes and the UTF-8 bytes right after it.
proof fn lemma_str_here_parts(bytes: Seq<u8>, pos: int, sq: Seq<char>)
    requires
        str_fits_here(bytes, pos, sq),
    ensures
        enc_str(sq).len() == 8 + vstd::utf8::encode_utf8(sq).len(),
        bytes.subrange(pos, pos + 8) == enc_u64(vstd::utf8::encode_utf8(sq).len() as u64),
        bytes.subrange(pos + 8, pos + 8 + vstd::utf8::encode_utf8(sq).len() as int)
            == vstd::utf8::encode_utf8(sq),
{
    lemma_auto_spec_u64_to_from_le_bytes();
    let u = vstd::utf8::encode_utf8(sq);
    lemma_peel(bytes, pos, enc_u64(u.len() as u64), u);
}

/// Rebuilds the round phase from its scalar triple.
fn gs_from_scalars(v: &Vec<i64>) -> (r: Option<GameState>)
    ensures
        r == spec_gs_from_scalars(v@),
{
    if v.len() != 3 {
        return None;
    }
    let tag = v[0];
    let p1 = v[1];
    let p2 = v[2];
    if tag == 0 {
        Some(GameState::Countdown { timer: Timer { timer: p1, end_time: p2 } })
    } else if tag == 1 && 0 <= p1 && p1 <= u32::MAX as i64 && 0 <= p2 && p2 <= u32::MAX as i64 {
        Some(GameState::Spawning { mobs_left_to_spawn: p1 as u32, mobs_total: p2 as u32 })
    } else if tag == 2 && p1 == 0 && p2 == 0 {
        Some(GameState::WaitForDefeat)
    } else if tag == 3 {
        Some(GameState::WaitForRespawn { timer: Timer { timer: p1, end_time: p2 } })
    } else if tag == 4 && p1 == 0 && p2 == 0 {
        Some(GameState::ReadyToRespawn)
    } else {
        None
    }
}

/// Rebuilds an actor state from its scalar row.
fn state_from_scalars(v: &Vec<i64>) -> (r: Option<ActorState>)
    ensures
        r == spec_state_from_scalars(v@),
{
    if v.len() != 22 {
        return None;
    }
    let owner_index = v[9] as u64;
    if owner_index > usize::MAX as u64 {
        return None;
    }
    Some(
        ActorState {
            weapon_cooldown: v[0],
            pos: Vec2 { x: v[1], y: v[2] },
            locomotion_dir: Vec2 { x: v[3], y: v[4] },
            vel: Vec2 { x: v[5], y: v[6] },
            attack_dir: Vec2 { x: v[7], y: v[8] },
            owner: Handle { index: owner_index as usize, generation: v[10] as u64 },
            health: v[11],
            color: Color { r: v[12], g: v[13], b: v[14], a: v[15] },
            pain_timer: Timer { timer: v[16], end_time: v[17] },
            frame: v[18],
            facing: Vec2 { x: v[19], y: v[20] },
            age: v[21],
        },
    )
}

/// Parses a snapshot back out of its byte form.  Whatever it accepts is the
/// one snapshot that encodes to exactly these bytes, to the last byte:
/// trailing data, a bad phase tag or an out-of-range scalar are rejected.
/// [`lemma_encode_injective`] pins that snapshot as unique.
#[verifier::rlimit(100)]
pub fn decode_snapshot(bytes: &Vec<u8>) -> (r: Option<StateSnapshot>)
    ensures
        match r {
            Some(s2) => bytes@ == spec_encode(s2) && snap_enc_wf(s2),
            None => true,
        },
        forall|s: StateSnapshot|
            snap_enc_wf(s) && bytes@ == spec_encode(s) ==> r is Some && snap_same(r.unwrap(), s),
{
    proof {
        lemma_auto_spec_u64_to_from_le_bytes();
    }
    let (spawner_tick, p1) = match parse_i64(bytes, 0) {
        Some(v) => v,
        None => {
            proof {
                assert forall|s: StateSnapshot|
                    snap_enc_wf(s) && bytes@ == spec_encode(s) implies false by {
                    lemma_encode_parts(bytes@, s);
                }
            }
            return None;
        },
    };
    let (me64, p2) = match parse_u64(bytes, p1) {
        Some(v) => v,
        None => {
            proof {
                assert forall|s: StateSnapshot|
                    snap_enc_wf(s) && bytes@ == spec_encode(s) implies false by {
                    lemma_encode_parts(bytes@, s);
                }
            }
            return None;
        },
    };
    proof {
        assert forall|s: StateSnapshot|
            snap_enc_wf(s) && bytes@ == spec_encode(s) implies me64 == s.me as u64 by {
            lemma_encode_parts(bytes@, s);
        }
    }
    if me64 > usize::MAX as u64 {
        proof {
            assert forall|s: StateSnapshot|
                snap_enc_wf(s) && bytes@ == spec_encode(s) implies false by {
                assert(me64 == s.me as u64);
            }
        }
        return None;
    }
    let (round64, p3) = match parse_u64(bytes, p2) {
        Some(v) => v,
        None => {
            proof {
                assert forall|s: StateSnapshot|
                    snap_enc_wf(s) && bytes@ == spec_encode(s) implies false by {
                    lemma_encode_parts(bytes@, s);
                }
            }
            return None;
        },
    };
    proof {
        assert forall|s: StateSnapshot|
            snap_enc_wf(s) && bytes@ == spec_encode(s) implies round64 == s.round as u64 by {
            lemma_encode_parts(bytes@, s);
        }
    }
    if round64 > u32::MAX as u64 {
        proof {
            assert forall|s: StateSnapshot|
                snap_enc_wf(s) && bytes@ == spec_encode(s) implies false by {
                assert(round64 == s.round as u64);
            }
        }
        return None;
    }
    let (gsv, p4) = match parse_i64_list(bytes, p3, 3) {
        Some(v) => v,
        None => {
            proof {
                assert forall|s: StateSnapshot|
                    snap_enc_wf(s) && bytes@ == spec_encode(s) implies false by {
                    lemma_encode_parts(bytes@, s);
                    lemma_enc_i64_seq_len(gs_scalars(s.game_state));
                }
            }
            return None;
        },
    };
    proof {
        assert forall|s: StateSnapshot|
            snap_enc_wf(s) && bytes@ == spec_encode(s) implies gsv@ == gs_scalars(s.game_state) by {
            lemma_encode_parts(bytes@, s);
            lemma_enc_i64_seq_len(gs_scalars(s.game_state));
        }
    }
    let gs = match gs_from_scalars(&gsv) {
        Some(gs) => gs,
        None => {
            proof {
                assert forall|s: StateSnapshot|
                    snap_enc_wf(s) && bytes@ == spec_encode(s) implies false by {
                    assert(gsv@ == gs_scalars(s.game_state));
                    lemma_gs_scalars_round_trip(s.game_state);
                }
            }
            return None;
        },
    };
    let (count64, p5) = match parse_u64(bytes, p4) {
        Some(v) => v,
        None => {
            proof {
                assert forall|s: StateSnapshot|
                    snap_enc_wf(s) && bytes@ == spec_encode(s) implies false by {
                    lemma_encode_parts(bytes@, s);
                    lemma_enc_i64_seq_len(gs_scalars(s.game_state));
                }
            }
            return None;
        },
    };
    proof {
        assert forall|s: StateSnapshot|
            snap_enc_wf(s) && bytes@ == spec_encode(s) implies count64 == s.actors@.len() as u64
            && bytes@.subrange(p5 as int, bytes@.len() as int) == enc_actor_list(s.actors@) by {
            lemma_encode_parts(bytes@, s);
            lemma_enc_i64_seq_len(gs_scalars(s.game_state));
        }
    }
    if count64 > usize::MAX as u64 {
        proof {
            assert forall|s: StateSnapshot|
                snap_enc_wf(s) && bytes@ == spec_encode(s) implies false by {
                assert(count64 == s.actors@.len() as u64);
                vstd::std_specs::vec::axiom_spec_len(&s.actors);
            }
        }
        return None;
    }
    let count = count64 as usize;
    proof {
        assert forall|s: StateSnapshot|
            snap_enc_wf(s) && bytes@ == spec_encode(s) implies count as int == s.actors@.len()
            && bytes@.subrange(p5 as int, bytes@.len() as int) == enc_actor_list(
            s.actors@.skip(0),
        ) by {
            vstd::std_specs::vec::axiom_spec_len(&s.actors);
            assert(count64 == s.actors@.len() as u64);
            assert(s.actors@.skip(0) =~= s.actors@);
        }
    }
    let mut actors: Vec<ActorSnapshot> = Vec::new();
    let mut p = p5;
    let mut i: usize = 0;
    while i < count
        invariant
            i <= count,
            p5 <= p <= bytes@.len(),
            actors@.len() == i,
            bytes@.subrange(p5 as int, p as int) == enc_actor_list(actors@),
            snap_enc_wf_list(actors@),
            forall|s: StateSnapshot|
                snap_enc_wf(s) && bytes@ == spec_encode(s) ==> i <= s.actors@.len()
                    && count as int == s.actors@.len() && bytes@.subrange(
                    p as int,
                    bytes@.len() as int,
                ) == enc_actor_list(s.actors@.skip(i as int)),
        decreases count - i,
    {
        let ghost pre = actors@;
        let ghost p_before = p;
        proof {
            assert forall|s: StateSnapshot|
                snap_enc_wf(s) && bytes@ == spec_encode(s) implies {
                &&& str_fits_here(bytes@, p as int, s.actors@[i as int].info@)
                &&& i < s.actors@.len()
            } by {
                lemma_actor_list_step(s.actors@, i as int);
                let a = s.actors@[i as int];
                let t = enc_i64_seq(state_scalars(a.state));
                assert(bytes@.subrange(p as int, bytes@.len() as int) =~= enc_str(a.info@) + ((
                enc_str(a.weapon@) + t) + enc_actor_list(s.actors@.skip(i as int + 1))));
                lemma_tail_peel(bytes@, p as int, enc_str(a.info@), (enc_str(a.weapon@) + t)
                    + enc_actor_list(s.actors@.skip(i as int + 1)));
            }
        }
        let (info, q1) = match parse_str(bytes, p) {
            Some(v) => v,
            None => {
                proof {
                    assert forall|s: StateSnapshot|
                        snap_enc_wf(s) && bytes@ == spec_encode(s) implies false by {
                        assert(str_fits_here(bytes@, p as int, s.actors@[i as int].info@));
                    }
                }
                return None;
            },
        };
        proof {
            assert forall|s: StateSnapshot|
                snap_enc_wf(s) && bytes@ == spec_encode(s) implies {
                &&& info@ == s.actors@[i as int].info@
                &&& q1 as int == p + enc_str(s.actors@[i as int].info@).len()
                &&& str_fits_here(bytes@, q1 as int, s.actors@[i as int].weapon@)
            } by {
                assert(str_fits_here(bytes@, p as int, s.actors@[i as int].info@));
                lemma_actor_list_step(s.actors@, i as int);
                let a = s.actors@[i as int];
                let t = enc_i64_seq(state_scalars(a.state));
                assert(bytes@.subrange(p as int, bytes@.len() as int) =~= enc_str(a.info@) + (
                enc_str(a.weapon@) + (t + enc_actor_list(s.actors@.skip(i as int + 1)))));
                lemma_tail_peel(bytes@, p as int, enc_str(a.info@), enc_str(a.weapon@) + (t
                    + enc_actor_list(s.actors@.skip(i as int + 1))));
                lemma_tail_peel(bytes@, q1 as int, enc_str(a.weapon@), t + enc_actor_list(
                    s.actors@.skip(i as int + 1),
                ));
            }
        }
        let (weapon, q2) = match parse_str(bytes, q1) {
            Some(v) => v,
            None => {
                proof {
                    assert forall|s: StateSnapshot|
                        snap_enc_wf(s) && bytes@ == spec_encode(s) implies false by {
                        assert(str_fits_here(bytes@, q1 as int, s.actors@[i as int].weapon@));
                    }
                }
                return None;
            },
        };
        proof {
            assert forall|s: StateSnapshot|
                snap_enc_wf(s) && bytes@ == spec_encode(s) implies {
                let a = s.actors@[i as int];
                let t = enc_i64_seq(state_scalars(a.state));
                &&& weapon@ == a.weapon@
                &&& q2 as int == q1 + enc_str(a.weapon@).len()
                &&& q2 + 176 <= bytes@.len()
                &&& bytes@.subrange(q2 as int, q2 + 176) == t
            } by {
                assert(str_fits_here(bytes@, q1 as int, s.actors@[i as int].weapon@));
                lemma_actor_list_step(s.actors@, i as int);
                let a = s.actors@[i as int];
                let t = enc_i64_seq(state_scalars(a.state));
                lemma_enc_i64_seq_len(state_scalars(a.state));
                assert(bytes@.subrange(p as int, bytes@.len() as int) =~= enc_str(a.info@) + (
                enc_str(a.weapon@) + (t + enc_actor_list(s.actors@.skip(i as int + 1)))));
                lemma_tail_peel(bytes@, p as int, enc_str(a.info@), enc_str(a.weapon@) + (t
                    + enc_actor_list(s.actors@.skip(i as int + 1))));
                lemma_tail_peel(bytes@, q1 as int, enc_str(a.weapon@), t + enc_actor_list(
                    s.actors@.skip(i as int + 1),
                ));
                lemma_tail_peel(bytes@, q2 as int, t, enc_actor_list(s.actors@.skip(i as int + 1)));
            }
        }
        let (sv, q3) = match parse_i64_list(bytes, q2, 22) {
            Some(v) => v,
            None => {
                proof {
                    assert forall|s: StateSnapshot|
                        snap_enc_wf(s) && bytes@ == spec_encode(s) implies false by {
                        assert(q2 + 176 <= bytes@.len());
                    }
                }
                return None;
            },
        };
        proof {
            assert forall|s: StateSnapshot|
                snap_enc_wf(s) && bytes@ == spec_encode(s) implies sv@ == state_scalars(
                s.actors@[i as int].state,
            ) by {
                assert(bytes@.subrange(q2 as int, q2 + 176) == enc_i64_seq(
                    state_scalars(s.actors@[i as int].state),
                ));
                lemma_enc_i64_seq_len(state_scalars(s.actors@[i as int].state));
            }
        }
        let st = match state_from_scalars(&sv) {
            Some(st) => st,
            None => {
                proof {
                    assert forall|s: StateSnapshot|
                        snap_enc_wf(s) && bytes@ == spec_encode(s) implies false by {
                        assert(sv@ == state_scalars(s.actors@[i as int].state));
                        lemma_state_scalars_round_trip(s.actors@[i as int].state);
                    }
                }
                return None;
            },
        };
        let a = ActorSnapshot { info, weapon, state: st };
        proof {
            lemma_state_scalars_to_from(sv@, st);
            assert(enc_actor(a) =~= bytes@.subrange(p_before as int, q3 as int)) by {
                lemma_join(bytes@, p_before as int, q1 as int, q2 as int);
                lemma_join(bytes@, p_before as int, q2 as int, q3 as int);
                assert(bytes@.subrange(p_before as int, q2 as int) == enc_str(a.info@) + enc_str(
                    a.weapon@,
                ));
                assert(bytes@.subrange(p_before as int, q3 as int) == (enc_str(a.info@) + enc_str(
                    a.weapon@,
                )) + enc_i64_seq(state_scalars(st)));
            }
            lemma_enc_actor_list_push(pre, a);
            lemma_join(bytes@, p5 as int, p_before as int, q3 as int);
            assert forall|s: StateSnapshot|
                snap_enc_wf(s) && bytes@ == spec_encode(s) implies bytes@.subrange(
                q3 as int,
                bytes@.len() as int,
            ) == enc_actor_list(s.actors@.skip(i as int + 1)) by {
                lemma_actor_list_step(s.actors@, i as int);
                let sa = s.actors@[i as int];
                let t = enc_i64_seq(state_scalars(sa.state));
                lemma_enc_i64_seq_len(state_scalars(sa.state));
                assert(bytes@.subrange(p as int, bytes@.len() as int) =~= enc_str(sa.info@) + (
                enc_str(sa.weapon@) + (t + enc_actor_list(s.actors@.skip(i as int + 1)))));
                lemma_tail_peel(bytes@, p as int, enc_str(sa.info@), enc_str(sa.weapon@) + (t
                    + enc_actor_list(s.actors@.skip(i as int + 1))));
                lemma_tail_peel(bytes@, q1 as int, enc_str(sa.weapon@), t + enc_actor_list(
                    s.actors@.skip(i as int + 1),
                ));
                lemma_tail_peel(bytes@, q2 as int, t, enc_actor_list(s.actors@.skip(i as int + 1)));
            }
        }
        actors.push(a);
        p = q3;
        i = i + 1;
    }
    if p != bytes.len() {
        proof {
            assert forall|s: StateSnapshot|
                snap_enc_wf(s) && bytes@ == spec_encode(s) implies false by {
                assert(bytes@.subrange(p as int, bytes@.len() as int) == enc_actor_list(
                    s.actors@.skip(count as int),
                ));
                assert(s.actors@.skip(count as int) =~= Seq::<ActorSnapshot>::empty());
                assert(enc_actor_list(Seq::<ActorSnapshot>::empty()) =~= Seq::<u8>::empty());
            }
        }
        return None;
    }
    let snap = StateSnapshot {
        spawner: Clock { tick: spawner_tick },
        me: me64 as usize,
        game_state: gs,
        round: round64 as u32,
        actors,
    };
    proof {
        lemma_gs_from_to(gsv@, gs);
        assert((me64 as usize) as u64 == me64);
        assert((round64 as u32) as u64 == round64);
        assert(snap.actors@.len() as u64 == count64) by {
            vstd::std_specs::vec::axiom_spec_len(&snap.actors);
        }
        lemma_join(bytes@, 0, p1 as int, p2 as int);
        lemma_join(bytes@, 0, p2 as int, p3 as int);
        lemma_join(bytes@, 0, p3 as int, p4 as int);
        lemma_join(bytes@, 0, p4 as int, p5 as int);
        lemma_join(bytes@, 0, p5 as int, p as int);
        assert(bytes@.subrange(0, p as int) =~= bytes@);
        assert(bytes@ =~= spec_encode(snap));
        assert forall|s: StateSnapshot|
            snap_enc_wf(s) && bytes@ == spec_encode(s) implies snap_same(snap, s) by {
            lemma_encode_injective(snap, s);
        }
    }
    Some(snap)
}

/// Splitting a known concatenation that runs to the buffer's end.
proof fn lemma_tail_peel(bytes: Seq<u8>, pos: int, a: Seq<u8>, b: Seq<u8>)
    requires
        0 <= pos <= bytes.len(),
        bytes.subrange(pos, bytes.len() as int) == a + b,
    ensures
        pos + a.len() + b.len() == bytes.len(),
        bytes.subrange(pos, pos + a.len()) == a,
        bytes.subrange(pos + a.len(), bytes.len() as int) == b,
{
    assert(bytes.subrange(pos, bytes.len() as int).len() == bytes.len() - pos);
    assert(a.len() + b.len() == bytes.len() - pos);
    lemma_peel(bytes, pos, a, b);
}

/// Every string in the list fits the machine's byte-length range.
pub open spec fn snap_enc_wf_list(l: Seq<ActorSnapshot>) -> bool {
    forall|j: int|
        0 <= j < l.len() ==> vstd::utf8::encode_utf8((#[trigger] l[j]).info@).len() <= usize::MAX
            && vstd::utf8::encode_utf8(l[j].weapon@).len() <= usize::MAX
}

/// A scalar row accepted by the state parser encodes back to itself.
proof fn lemma_state_scalars_to_from(l: Seq<i64>, st: ActorState)
    requires
        spec_state_from_scalars(l) == Some(st),
    ensures
        state_scalars(st) == l,
{
    let oi = l[9] as u64;
    assert(st.owner.index == oi as usize);
    assert(0 <= oi <= usize::MAX);
    assert((oi as usize) as u64 == oi);
    assert(((oi as i64) as u64) == oi ==> true) by (bit_vector);
    let x = l[9];
    assert(((x as u64) as i64) == x) by (bit_vector);
    let g = l[10];
    assert(((g as u64) as i64) == g) by (bit_vector);
    assert(state_scalars(st) =~= l);
}

/// A scalar triple accepted by the phase parser encodes back to itself.
proof fn lemma_gs_from_to(l: Seq<i64>, gs: GameState)
    requires
        spec_gs_from_scalars(l) == Some(gs),
    ensures
        gs_scalars(gs) == l,
{
    assert(gs_scalars(gs) =~= l);
}

} // verus!
