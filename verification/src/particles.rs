//! Particles, as a function of time alone.
//!
//! No particle is remembered from one frame to the next. A particle's place in
//! its emitter's cone follows from the emitter's id and the particle's slot, so
//! every client sees the same cloud.

use vstd::prelude::*;

use crate::convert::Color3;
use crate::fnv::{hash_text, text_hash};
use crate::protocol::WireRenderParticleEmitter;
use crate::scalar::{Scalar, Vec3};

verus! {

/// What the first round of mixing multiplies by.
pub const MIX_FIRST: u64 = 13787848793156543929;

/// What the second round of mixing multiplies by.
pub const MIX_SECOND: u64 = 10723151780598845931;

/// How many steps the unit interval is divided into.
pub const STEPS: u64 = 1_000_000;

/// The number with its bits scattered.
pub open spec fn scattered(x: u64) -> u64 {
    let a = (x ^ (x >> 30u64)).wrapping_mul(MIX_FIRST);
    let b = (a ^ (a >> 27u64)).wrapping_mul(MIX_SECOND);
    b ^ (b >> 31u64)
}

fn mix(x: u64) -> (r: u64)
    ensures
        r == scattered(x),
{
    let a: u64 = (x ^ (x >> 30u64)).wrapping_mul(MIX_FIRST);
    let b: u64 = (a ^ (a >> 27u64)).wrapping_mul(MIX_SECOND);
    b ^ (b >> 31u64)
}

/// Two numbers for a slot of an emitter, in millionths.
pub open spec fn millionths(id: Seq<char>, slot: u64) -> (u64, u64) {
    let doubled = slot.wrapping_mul(2);
    (
        scattered(text_hash(id) ^ doubled) % STEPS,
        scattered(text_hash(id) ^ doubled.wrapping_add(1)) % STEPS,
    )
}

/// Two numbers for a slot of an emitter, in millionths: from zero up to, but
/// not including, a whole.
pub fn hash_to_unit_floats(id: &str, slot: usize) -> (r: (u64, u64))
    ensures
        r == millionths(id@, slot as u64),
        r.0 < STEPS,
        r.1 < STEPS,
{
    let id_hash = hash_text(id);
    let doubled: u64 = (slot as u64).wrapping_mul(2);
    (mix(id_hash ^ doubled) % STEPS, mix(id_hash ^ doubled.wrapping_add(1)) % STEPS)
}

/// A particle, in the player's frame.
#[derive(Clone, Copy, Debug, PartialEq, Eq, Structural)]
pub struct Particle {
    pub position: Vec3,
    pub size: Scalar,
    pub color: Color3,
}

/// Whether a particle is what a slot of an emitter shows. `at` places a slot,
/// given its two numbers, and says how opaque it is.
pub open spec fn occupies<A: Fn(&WireRenderParticleEmitter, usize, u64, u64) -> (Vec3, u8)>(
    p: Particle,
    e: WireRenderParticleEmitter,
    slot: usize,
    at: A,
) -> bool {
    let (u1, u2) = millionths(e.id@, slot as u64);
    &&& call_ensures(at, (&e, slot, u1, u2), (p.position, p.color.3))
    &&& p.size == e.particle_size
    &&& p.color.0 == e.color.0
    &&& p.color.1 == e.color.1
    &&& p.color.2 == e.color.2
}

/// Whether a list is the particles of some emitters: each emitter's slots in
/// turn.
pub open spec fn sheds<A: Fn(&WireRenderParticleEmitter, usize, u64, u64) -> (Vec3, u8)>(
    out: Seq<Particle>,
    emitters: Seq<WireRenderParticleEmitter>,
    capacities: Seq<usize>,
    at: A,
) -> bool
    decreases emitters.len(),
{
    if emitters.len() == 0 {
        out.len() == 0
    } else {
        let slots = capacities.last() as int;
        let start = out.len() - slots;
        &&& start >= 0
        &&& sheds(out.take(start), emitters.drop_last(), capacities.drop_last(), at)
        &&& forall|s: int|
            0 <= s < slots ==> occupies(
                #[trigger] out[start + s],
                emitters.last(),
                s as usize,
                at,
            )
    }
}

/// Whether each emitter has the number of slots that `capacity` gives it.
pub open spec fn allotted<C: Fn(&WireRenderParticleEmitter) -> usize>(
    capacities: Seq<usize>,
    emitters: Seq<WireRenderParticleEmitter>,
    capacity: C,
) -> bool {
    &&& capacities.len() == emitters.len()
    &&& forall|i: int|
        0 <= i < emitters.len() ==> call_ensures(
            capacity,
            (&emitters[i],),
            #[trigger] capacities[i],
        )
}

/// The particles of all emitters. `capacity` says how many slots an emitter has,
/// and `at` where a slot's particle is and how opaque.
pub fn simulate<
    C: Fn(&WireRenderParticleEmitter) -> usize,
    A: Fn(&WireRenderParticleEmitter, usize, u64, u64) -> (Vec3, u8),
>(emitters: &[WireRenderParticleEmitter], capacity: &C, at: &A) -> (r: Vec<Particle>)
    requires
        forall|e: &WireRenderParticleEmitter| #[trigger] call_requires(*capacity, (e,)),
        forall|e: &WireRenderParticleEmitter, slot: usize, u1: u64, u2: u64|
            u1 < STEPS && u2 < STEPS ==> #[trigger] call_requires(*at, (e, slot, u1, u2)),
    ensures
        exists|capacities: Seq<usize>|
            #![trigger allotted(capacities, emitters@, *capacity)]
            allotted(capacities, emitters@, *capacity) && sheds(
                r@,
                emitters@,
                capacities,
                *at,
            ),
{
    let ghost mut capacities: Seq<usize> = Seq::empty();
    let mut out: Vec<Particle> = Vec::new();
    let mut i: usize = 0;
    while i < emitters.len()
        invariant
            i <= emitters@.len(),
            forall|e: &WireRenderParticleEmitter| #[trigger] call_requires(*capacity, (e,)),
            forall|e: &WireRenderParticleEmitter, slot: usize, u1: u64, u2: u64|
                u1 < STEPS && u2 < STEPS ==> #[trigger] call_requires(*at, (e, slot, u1, u2)),
            allotted(capacities, emitters@.take(i as int), *capacity),
            sheds(out@, emitters@.take(i as int), capacities, *at),
        decreases emitters@.len() - i,
    {
        let e = &emitters[i];
        let slots: usize = capacity(e);
        let ghost done = out@;
        let mut s: usize = 0;
        while s < slots
            invariant
                s <= slots,
                *e == emitters@[i as int],
                forall|e: &WireRenderParticleEmitter, slot: usize, u1: u64, u2: u64|
                    u1 < STEPS && u2 < STEPS ==> #[trigger] call_requires(*at, (e, slot, u1, u2)),
                out@.len() == done.len() + s,
                out@.take(done.len() as int) =~= done,
                forall|k: int|
                    0 <= k < s ==> occupies(
                        #[trigger] out@[done.len() + k],
                        *e,
                        k as usize,
                        *at,
                    ),
            decreases slots - s,
        {
            let (u1, u2) = hash_to_unit_floats(e.id.as_str(), s);
            let (position, alpha) = at(e, s, u1, u2);
            let ghost had = out@;
            out.push(
                Particle {
                    position,
                    size: e.particle_size,
                    color: Color3(e.color.0, e.color.1, e.color.2, alpha),
                },
            );
            proof {
                assert forall|k: int| 0 <= k < s + 1 implies occupies(
                    #[trigger] out@[done.len() + k],
                    *e,
                    k as usize,
                    *at,
                ) by {
                    if k < s {
                        assert(out@[done.len() + k] == had[done.len() + k]);
                    }
                }
            }
            s = s + 1;
        }
        proof {
            let more = capacities.push(slots);
            assert(more.drop_last() =~= capacities);
            assert(emitters@.take(i + 1).drop_last() =~= emitters@.take(i as int));
            assert(out@.take(out@.len() - slots) =~= done);
            assert(allotted(more, emitters@.take(i + 1), *capacity));
            capacities = more;
        }
        i = i + 1;
    }
    proof {
        assert(emitters@.take(i as int) =~= emitters@);
        assert(allotted(capacities, emitters@, *capacity));
    }
    out
}

/// How many slots the emitters before one have.
pub open spec fn slots_before(capacities: Seq<usize>, i: int) -> int
    decreases i,
{
    if i <= 0 {
        0
    } else {
        slots_before(capacities, i - 1) + capacities[i - 1]
    }
}

proof fn slots_of_front(capacities: Seq<usize>, i: int)
    requires
        0 <= i < capacities.len(),
    ensures
        slots_before(capacities.drop_last(), i) == slots_before(capacities, i),
    decreases i,
{
    if i > 0 {
        slots_of_front(capacities, i - 1);
        assert(capacities.drop_last()[i - 1] == capacities[i - 1]);
    }
}

/// Every slot of every emitter shows one particle, emitter after emitter and slot
/// after slot: it is where `at` puts that slot and as opaque, as large as the
/// emitter's particles are, and in the emitter's colour. The two numbers that `at`
/// is given lie below one million and are the same for every emitter of that id.
pub proof fn every_slot_shows_its_particle<
    A: Fn(&WireRenderParticleEmitter, usize, u64, u64) -> (Vec3, u8),
>(
    out: Seq<Particle>,
    emitters: Seq<WireRenderParticleEmitter>,
    capacities: Seq<usize>,
    at: A,
    i: int,
    s: int,
)
    requires
        sheds(out, emitters, capacities, at),
        capacities.len() == emitters.len(),
        0 <= i < emitters.len(),
        0 <= s < capacities[i],
    ensures
        out.len() == slots_before(capacities, capacities.len() as int),
        0 <= slots_before(capacities, i) + s < out.len(),
        ({
            let p = out[slots_before(capacities, i) + s];
            let (u1, u2) = millionths(emitters[i].id@, s as u64);
            &&& u1 < 1_000_000 && u2 < 1_000_000
            &&& call_ensures(at, (&emitters[i], s as usize, u1, u2), (p.position, p.color.3))
            &&& p.size == emitters[i].particle_size
            &&& p.color.0 == emitters[i].color.0
            &&& p.color.1 == emitters[i].color.1
            &&& p.color.2 == emitters[i].color.2
        }),
    decreases emitters.len(),
{
    let last = emitters.len() - 1;
    let start = out.len() - capacities.last() as int;
    let fewer = capacities.drop_last();
    slots_add_up(out.take(start), emitters.drop_last(), fewer, at);
    slots_of_front(capacities, last);
    if i < last {
        slots_of_front(capacities, i);
        assert(fewer[i] == capacities[i]);
        assert(emitters.drop_last()[i] == emitters[i]);
        every_slot_shows_its_particle(out.take(start), emitters.drop_last(), fewer, at, i, s);
    } else {
        assert(occupies(out[start + s], emitters.last(), s as usize, at));
    }
}

proof fn slots_add_up<A: Fn(&WireRenderParticleEmitter, usize, u64, u64) -> (Vec3, u8)>(
    out: Seq<Particle>,
    emitters: Seq<WireRenderParticleEmitter>,
    capacities: Seq<usize>,
    at: A,
)
    requires
        sheds(out, emitters, capacities, at),
        capacities.len() == emitters.len(),
    ensures
        out.len() == slots_before(capacities, capacities.len() as int),
    decreases emitters.len(),
{
    if emitters.len() > 0 {
        let start = out.len() - capacities.last() as int;
        slots_add_up(out.take(start), emitters.drop_last(), capacities.drop_last(), at);
        slots_of_front(capacities, emitters.len() - 1);
    }
}

} // verus!
