//! Which sounds play.
//!
//! A clip is read once and kept. A sound plays from the first frame in which the
//! server names it to the first in which it does not; one that has run out is
//! forgotten, and starts anew if it is still named in the next frame.

use vstd::prelude::*;

use crate::protocol::WireSoundState;
use crate::scalar::{Scalar, Vec3};
use crate::table::{
    distinct_keys, position, position_is_first, position_of_missing, Table,
};

verus! {

/// The clips that were read, and the sounds that play. `C` is a clip, and `A` a
/// sound that plays.
#[derive(Debug)]
pub struct ClientAudio<C, A> {
    pub clips: Table<C>,
    pub playing: Table<A>,
}

/// How a sound that plays is adjusted.
#[derive(Debug)]
pub struct Follow {
    pub object_id: String,
    pub position: Vec3,
    pub volume: Scalar,
    pub pitch: Scalar,
    /// How much of the sound is held back, from zero to one.
    pub occluded: Scalar,
}

/// What one frame does to the sounds.
#[derive(Debug)]
pub struct AudioChanges<A> {
    /// The sounds that the server no longer names, to be stopped.
    pub stopped: Vec<(String, A)>,
    /// How those that play are adjusted.
    pub follows: Vec<Follow>,
}

/// Whether the server names a sound.
pub open spec fn named(sounds: Seq<WireSoundState>, id: Seq<char>) -> bool {
    exists|i: int| 0 <= i < sounds.len() && (#[trigger] sounds[i]).object_id@ == id
}

fn is_named(sounds: &[WireSoundState], id: &String) -> (r: bool)
    ensures
        r == named(sounds@, id@),
{
    let mut i: usize = 0;
    while i < sounds.len()
        invariant
            i <= sounds@.len(),
            forall|k: int| 0 <= k < i ==> (#[trigger] sounds@[k]).object_id@ != id@,
        decreases sounds@.len() - i,
    {
        if sounds[i].object_id == *id {
            return true;
        }
        i = i + 1;
    }
    false
}

/// The sounds that play and that the server no longer names, in order.
pub open spec fn fallen_silent<A>(
    playing: Seq<(String, A)>,
    sounds: Seq<WireSoundState>,
) -> Seq<(String, A)>
    decreases playing.len(),
{
    if playing.len() == 0 {
        Seq::empty()
    } else {
        let before = fallen_silent(playing.drop_last(), sounds);
        if named(sounds, playing.last().0@) {
            before
        } else {
            before.push(playing.last())
        }
    }
}

/// Whether a table is another with one key set.
pub open spec fn set<V>(after: Table<V>, before: Table<V>, key: Seq<char>, value: V) -> bool {
    forall|k: Seq<char>| #[trigger]
        after.lookup(k) == if k == key {
            Some(value)
        } else {
            before.lookup(k)
        }
}

/// Whether a table is another without one key.
pub open spec fn unset<V>(after: Table<V>, before: Table<V>, key: Seq<char>) -> bool {
    forall|k: Seq<char>| #[trigger]
        after.lookup(k) == if k == key {
            None
        } else {
            before.lookup(k)
        }
}

/// Whether a sound was begun with a clip: `begin` was asked, and the sound plays
/// if it could be.
pub open spec fn begun<C, A, B: Fn(&C, &WireSoundState) -> Option<A>>(
    after: Table<A>,
    before: Table<A>,
    clip: C,
    sound: WireSoundState,
    begin: B,
) -> bool {
    exists|a: Option<A>| #[trigger]
        call_ensures(begin, (&clip, &sound), a) && match a {
            Some(playing) => set(after, before, sound.object_id@, playing),
            None => after == before,
        }
}

/// Whether a sound that did not play was started: its clip read unless it is
/// kept already, kept if it could be read, and the sound begun with it.
pub open spec fn started<
    C,
    A,
    L: Fn(&String) -> Option<C>,
    B: Fn(&C, &WireSoundState) -> Option<A>,
>(
    after: ClientAudio<C, A>,
    before: ClientAudio<C, A>,
    sound: WireSoundState,
    load: L,
    begin: B,
) -> bool {
    match before.clips.lookup(sound.clip@) {
        Some(clip) => after.clips == before.clips && begun(
            after.playing,
            before.playing,
            clip,
            sound,
            begin,
        ),
        None => exists|c: Option<C>| #[trigger]
            call_ensures(load, (&sound.clip,), c) && match c {
                Some(clip) => set(after.clips, before.clips, sound.clip@, clip) && begun(
                    after.playing,
                    before.playing,
                    clip,
                    sound,
                    begin,
                ),
                None => after == before,
            },
    }
}

/// How much of a sound is held back.
pub open spec fn held_back(occlusion: Table<Scalar>, id: Seq<char>) -> Scalar {
    match occlusion.lookup(id) {
        Some(o) => o.in_unit(),
        None => Scalar::zero(),
    }
}

/// Whether an adjustment is what the server asks of a sound.
pub open spec fn follows(f: Follow, sound: WireSoundState, occlusion: Table<Scalar>) -> bool {
    &&& f.object_id@ == sound.object_id@
    &&& f.position == sound.position
    &&& f.volume == sound.volume
    &&& f.pitch == sound.pitch
    &&& f.occluded == held_back(occlusion, sound.object_id@)
}

/// Whether a sound was looked after: forgotten if it has run out, adjusted if it
/// plays, left alone if it does not.
pub open spec fn looked_after<C, A, Z: Fn(&A) -> bool>(
    after: ClientAudio<C, A>,
    before: ClientAudio<C, A>,
    sound: WireSoundState,
    occlusion: Table<Scalar>,
    over: Z,
    f: Option<Follow>,
) -> bool {
    match before.playing.lookup(sound.object_id@) {
        Some(playing) => exists|gone: bool| #[trigger]
            call_ensures(over, (&playing,), gone) && if gone {
                after.clips == before.clips && unset(
                    after.playing,
                    before.playing,
                    sound.object_id@,
                ) && f is None
            } else {
                after == before && (f matches Some(f) && follows(f, sound, occlusion))
            },
        None => after == before && f is None,
    }
}

/// Whether one sound that the server names was dealt with: started if it did not
/// play, then looked after.
pub open spec fn dealt_with<
    C,
    A,
    L: Fn(&String) -> Option<C>,
    B: Fn(&C, &WireSoundState) -> Option<A>,
    Z: Fn(&A) -> bool,
>(
    after: ClientAudio<C, A>,
    before: ClientAudio<C, A>,
    sound: WireSoundState,
    occlusion: Table<Scalar>,
    load: L,
    begin: B,
    over: Z,
    f: Option<Follow>,
) -> bool {
    if before.playing.holds(sound.object_id@) {
        looked_after(after, before, sound, occlusion, over, f)
    } else {
        exists|mid: ClientAudio<C, A>| #[trigger]
            started(mid, before, sound, load, begin) && looked_after(
                after,
                mid,
                sound,
                occlusion,
                over,
                f,
            )
    }
}

/// The adjustments among those that sounds may need.
pub open spec fn adjustments(list: Seq<Option<Follow>>) -> Seq<Follow>
    decreases list.len(),
{
    if list.len() == 0 {
        Seq::empty()
    } else {
        let before = adjustments(list.drop_last());
        match list.last() {
            Some(f) => before.push(f),
            None => before,
        }
    }
}

/// Whether all sounds that the server names were dealt with, one after the other.
pub open spec fn all_dealt_with<
    C,
    A,
    L: Fn(&String) -> Option<C>,
    B: Fn(&C, &WireSoundState) -> Option<A>,
    Z: Fn(&A) -> bool,
>(
    states: Seq<ClientAudio<C, A>>,
    list: Seq<Option<Follow>>,
    sounds: Seq<WireSoundState>,
    occlusion: Table<Scalar>,
    load: L,
    begin: B,
    over: Z,
) -> bool {
    &&& states.len() == sounds.len() + 1
    &&& list.len() == sounds.len()
    &&& forall|i: int|
        0 <= i < sounds.len() ==> dealt_with(
            states[i + 1],
            states[i],
            sounds[i],
            occlusion,
            load,
            begin,
            over,
            #[trigger] list[i],
        )
}

/// Whether one state is another without the sounds that the server no longer
/// names.
pub open spec fn only_named<C, A>(
    after: ClientAudio<C, A>,
    before: ClientAudio<C, A>,
    sounds: Seq<WireSoundState>,
) -> bool {
    &&& after.clips == before.clips
    &&& forall|k: Seq<char>| #[trigger]
        after.playing.lookup(k) == if named(sounds, k) {
            before.playing.lookup(k)
        } else {
            None
        }
}

impl<C, A> ClientAudio<C, A> {
    /// No clip was read, and nothing plays.
    pub fn new() -> (r: Self)
        ensures
            r.clips.entries@.len() == 0,
            r.playing.entries@.len() == 0,
            r.playing.distinct(),
    {
        ClientAudio { clips: Table::new(), playing: Table::new() }
    }

    /// Forgets the sounds that the server no longer names, and hands them out to
    /// be stopped.
    pub fn drop_silent(&mut self, sounds: &[WireSoundState]) -> (r: Vec<(String, A)>)
        requires
            old(self).playing.distinct(),
        ensures
            final(self).playing.distinct(),
            only_named(*final(self), *old(self), sounds@),
            r@ == fallen_silent(old(self).playing.entries@, sounds@),
    {
        let ghost was = self.playing.entries@;
        let mut all: Vec<(String, A)> = Vec::new();
        std::mem::swap(&mut all, &mut self.playing.entries);
        let mut kept: Table<A> = Table::new();
        let mut gone: Vec<(String, A)> = Vec::new();
        for entry in it: all
            invariant
                it.seq() == was,
                distinct_keys(was),
                kept.distinct(),
                gone@ =~= fallen_silent(was.take(it.index() as int), sounds@),
                forall|k: Seq<char>| #[trigger]
                    kept.lookup(k) == if named(sounds@, k) {
                        looked_up(was.take(it.index() as int), k)
                    } else {
                        None
                    },
        {
            let ghost n = it.index() as int;
            let ghost had = kept;
            proof {
                assert(was.take(n + 1).drop_last() =~= was.take(n));
                assert(entry == was[n]);
            }
            if is_named(sounds, &entry.0) {
                proof {
                    no_earlier(was, n);
                }
                kept.insert(entry.0, entry.1);
            } else {
                gone.push(entry);
            }
            proof {
                assert forall|k: Seq<char>| #[trigger]
                    kept.lookup(k) == (if named(sounds@, k) {
                        looked_up(was.take(n + 1), k)
                    } else {
                        None
                    }) by {
                    let _ = had.lookup(k);
                    position_is_first(was.take(n), k);
                }
            }
        }
        proof {
            assert(was.take(was.len() as int) =~= was);
        }
        self.playing = kept;
        gone
    }

    /// The clip of a name: the one that is kept, or else the one that `load`
    /// reads, which is then kept.
    pub fn load_clip<L: Fn(&String) -> Option<C>>(&mut self, clip: &String, load: &L) -> (r: Option<
        usize,
    >)
        requires
            forall|c: &String| #[trigger] call_requires(*load, (c,)),
        ensures
            final(self).playing == old(self).playing,
            match r {
                Some(i) => i < final(self).clips.entries@.len() && final(self).clips.lookup(clip@)
                    == Some(final(self).clips.entries@[i as int].1),
                None => final(self).clips.lookup(clip@) is None,
            },
            match old(self).clips.lookup(clip@) {
                Some(_) => final(self).clips == old(self).clips,
                None => exists|c: Option<C>| #[trigger]
                    call_ensures(*load, (clip,), c) && match c {
                        Some(c) => set(final(self).clips, old(self).clips, clip@, c),
                        None => final(self).clips == old(self).clips,
                    },
            },
    {
        match self.clips.find(clip) {
            Some(i) => Some(i),
            None => match load(clip) {
                Some(c) => {
                    self.clips.insert(clip.clone(), c);
                    proof {
                        assert(self.clips.lookup(clip@) is Some);
                    }
                    self.clips.find(clip)
                },
                None => None,
            },
        }
    }

    /// Starts a sound that does not play.
    pub fn start<L: Fn(&String) -> Option<C>, B: Fn(&C, &WireSoundState) -> Option<A>>(
        &mut self,
        sound: &WireSoundState,
        load: &L,
        begin: &B,
    )
        requires
            old(self).playing.distinct(),
            forall|c: &String| #[trigger] call_requires(*load, (c,)),
            forall|c: &C, s: &WireSoundState| #[trigger] call_requires(*begin, (c, s)),
        ensures
            final(self).playing.distinct(),
            started(*final(self), *old(self), *sound, *load, *begin),
    {
        if let Some(i) = self.load_clip(&sound.clip, load) {
            let begun = begin(&self.clips.entries[i].1, sound);
            if let Some(a) = begun {
                self.playing.insert(sound.object_id.clone(), a);
            }
        }
    }

    /// Looks after a sound that the server names: starts it if it does not play,
    /// forgets it if it has run out, and says how it is adjusted if it plays.
    pub fn look_after<
        L: Fn(&String) -> Option<C>,
        B: Fn(&C, &WireSoundState) -> Option<A>,
        Z: Fn(&A) -> bool,
    >(
        &mut self,
        sound: &WireSoundState,
        occlusion: &Table<Scalar>,
        load: &L,
        begin: &B,
        over: &Z,
    ) -> (r: Option<Follow>)
        requires
            old(self).playing.distinct(),
            forall|c: &String| #[trigger] call_requires(*load, (c,)),
            forall|c: &C, s: &WireSoundState| #[trigger] call_requires(*begin, (c, s)),
            forall|a: &A| #[trigger] call_requires(*over, (a,)),
        ensures
            final(self).playing.distinct(),
            dealt_with(
                *final(self),
                *old(self),
                *sound,
                *occlusion,
                *load,
                *begin,
                *over,
                r,
            ),
    {
        if !self.playing.contains_key(&sound.object_id) {
            self.start(sound, load, begin);
        }
        let ghost mid = *self;
        let gone = match self.playing.get(&sound.object_id) {
            Some(a) => over(a),
            None => {
                return None;
            },
        };
        assert(call_ensures(*over, (&mid.playing.lookup(sound.object_id@)->0,), gone));
        if gone {
            self.playing.remove(&sound.object_id);
            assert(looked_after(*self, mid, *sound, *occlusion, *over, None::<Follow>));
            return None;
        }
        let occluded = match occlusion.get(&sound.object_id) {
            Some(o) => o.clamp_unit(),
            None => Scalar::zero(),
        };
        Some(
            Follow {
                object_id: sound.object_id.clone(),
                position: sound.position,
                volume: sound.volume,
                pitch: sound.pitch,
                occluded,
            },
        )
    }

    /// Brings the sounds that play in line with those that the server names.
    ///
    /// `load` reads a clip, `begin` starts a sound with it, and `over` says
    /// whether a sound that plays has run out. `occlusion` says how much of each
    /// sound is held back.
    pub fn update<
        L: Fn(&String) -> Option<C>,
        B: Fn(&C, &WireSoundState) -> Option<A>,
        Z: Fn(&A) -> bool,
    >(
        &mut self,
        sounds: &[WireSoundState],
        occlusion: &Table<Scalar>,
        load: &L,
        begin: &B,
        over: &Z,
    ) -> (r: AudioChanges<A>)
        requires
            old(self).playing.distinct(),
            forall|c: &String| #[trigger] call_requires(*load, (c,)),
            forall|c: &C, s: &WireSoundState| #[trigger] call_requires(*begin, (c, s)),
            forall|a: &A| #[trigger] call_requires(*over, (a,)),
        ensures
            final(self).playing.distinct(),
            r.stopped@ == fallen_silent(old(self).playing.entries@, sounds@),
            exists|states: Seq<ClientAudio<C, A>>, list: Seq<Option<Follow>>| #[trigger]
                all_dealt_with(states, list, sounds@, *occlusion, *load, *begin, *over)
                    && only_named(states[0], *old(self), sounds@) && states.last() == *final(self)
                    && r.follows@ == adjustments(list),
    {
        let stopped = self.drop_silent(sounds);
        let ghost mut states: Seq<ClientAudio<C, A>> = seq![*self];
        let ghost mut list: Seq<Option<Follow>> = Seq::empty();
        let mut follows: Vec<Follow> = Vec::new();
        let mut i: usize = 0;
        while i < sounds.len()
            invariant
                i <= sounds@.len(),
                self.playing.distinct(),
                forall|c: &String| #[trigger] call_requires(*load, (c,)),
                forall|c: &C, s: &WireSoundState| #[trigger] call_requires(*begin, (c, s)),
                forall|a: &A| #[trigger] call_requires(*over, (a,)),
                all_dealt_with(
                    states,
                    list,
                    sounds@.take(i as int),
                    *occlusion,
                    *load,
                    *begin,
                    *over,
                ),
                only_named(states[0], *old(self), sounds@),
                states.last() == *self,
                follows@ =~= adjustments(list),
            decreases sounds@.len() - i,
        {
            let ghost before = *self;
            let follow = self.look_after(&sounds[i], occlusion, load, begin, over);
            proof {
                let more = states.push(*self);
                let longer = list.push(follow);
                assert(longer.drop_last() =~= list);
                assert forall|k: int| 0 <= k < i + 1 implies dealt_with(
                    more[k + 1],
                    more[k],
                    sounds@.take(i + 1)[k],
                    *occlusion,
                    *load,
                    *begin,
                    *over,
                    #[trigger] longer[k],
                ) by {
                    if k < i {
                        assert(longer[k] == list[k]);
                        assert(sounds@.take(i + 1)[k] == sounds@.take(i as int)[k]);
                    } else {
                        assert(more[k] == before);
                    }
                }
                states = more;
                list = longer;
            }
            if let Some(f) = follow {
                follows.push(f);
            }
            i = i + 1;
        }
        proof {
            assert(sounds@.take(i as int) =~= sounds@);
        }
        AudioChanges { stopped, follows }
    }
}

/// The value of the first entry with a key.
pub open spec fn looked_up<A>(entries: Seq<(String, A)>, key: Seq<char>) -> Option<A> {
    match position(entries, key) {
        Some(i) => Some(entries[i].1),
        None => None,
    }
}

proof fn no_earlier<A>(entries: Seq<(String, A)>, n: int)
    requires
        distinct_keys(entries),
        0 <= n < entries.len(),
    ensures
        position(entries.take(n), entries[n].0@) is None,
{
    assert forall|j: int| 0 <= j < n implies (#[trigger] entries.take(n)[j]).0@
        != entries[n].0@ by {
        assert(entries[j].0@ != entries[n].0@);
    }
    position_of_missing(entries.take(n), entries[n].0@);
}

proof fn plays_or_is_dealt_with<
    C,
    A,
    L: Fn(&String) -> Option<C>,
    B: Fn(&C, &WireSoundState) -> Option<A>,
    Z: Fn(&A) -> bool,
>(
    after: ClientAudio<C, A>,
    before: ClientAudio<C, A>,
    sound: WireSoundState,
    occlusion: Table<Scalar>,
    load: L,
    begin: B,
    over: Z,
    f: Option<Follow>,
    k: Seq<char>,
)
    requires
        dealt_with(after, before, sound, occlusion, load, begin, over, f),
        after.playing.lookup(k) is Some,
    ensures
        before.playing.lookup(k) is Some || k == sound.object_id@,
{
    if !before.playing.holds(sound.object_id@) {
        let mid = choose|mid: ClientAudio<C, A>| #[trigger]
            started(mid, before, sound, load, begin) && looked_after(
                after,
                mid,
                sound,
                occlusion,
                over,
                f,
            );
        assert(mid.playing.lookup(k) is Some);
    }
}

/// However the clips and the sounds turn out, nothing plays in the end that the
/// server does not name.
pub proof fn only_named_sounds_play<
    C,
    A,
    L: Fn(&String) -> Option<C>,
    B: Fn(&C, &WireSoundState) -> Option<A>,
    Z: Fn(&A) -> bool,
>(
    start: ClientAudio<C, A>,
    states: Seq<ClientAudio<C, A>>,
    list: Seq<Option<Follow>>,
    sounds: Seq<WireSoundState>,
    occlusion: Table<Scalar>,
    load: L,
    begin: B,
    over: Z,
    n: int,
)
    requires
        all_dealt_with(states, list, sounds, occlusion, load, begin, over),
        only_named(states[0], start, sounds),
        0 <= n < states.len(),
    ensures
        forall|k: Seq<char>| #[trigger]
            states[n].playing.lookup(k) is Some ==> named(sounds, k),
    decreases n,
{
    if n > 0 {
        only_named_sounds_play(
            start,
            states,
            list,
            sounds,
            occlusion,
            load,
            begin,
            over,
            n - 1,
        );
        let before = states[n - 1];
        assert forall|k: Seq<char>| #[trigger]
            states[n].playing.lookup(k) is Some implies named(sounds, k) by {
            plays_or_is_dealt_with(
                states[n],
                before,
                sounds[n - 1],
                occlusion,
                load,
                begin,
                over,
                list[n - 1],
                k,
            );
            if k == sounds[n - 1].object_id@ {
                assert(named(sounds, k));
            } else {
                assert(before.playing.lookup(k) is Some);
            }
        }
    }
}

/// What is stopped is every sound that played and that the server no longer names,
/// and nothing else.
pub proof fn what_is_no_longer_named_is_stopped<A>(
    entries: Seq<(String, A)>,
    sounds: Seq<WireSoundState>,
)
    ensures
        forall|e: int|
            0 <= e < entries.len() && (forall|i: int|
                0 <= i < sounds.len() ==> (#[trigger] sounds[i]).object_id@ != entries[e].0@)
                ==> fallen_silent(entries, sounds).contains(#[trigger] entries[e]),
        forall|k: int|
            0 <= k < fallen_silent(entries, sounds).len() ==> entries.contains(
                #[trigger] fallen_silent(entries, sounds)[k],
            ) && forall|i: int|
                0 <= i < sounds.len() ==> (#[trigger] sounds[i]).object_id@ != fallen_silent(
                    entries,
                    sounds,
                )[k].0@,
    decreases entries.len(),
{
    if entries.len() > 0 {
        let front = entries.drop_last();
        let before = fallen_silent(front, sounds);
        let now = fallen_silent(entries, sounds);
        let last = entries.len() - 1;
        what_is_no_longer_named_is_stopped(front, sounds);
        assert(forall|e: int| 0 <= e < front.len() ==> front[e] == #[trigger] entries[e]);
        assert(forall|k: int| 0 <= k < before.len() ==> before[k] == #[trigger] now[k]);
        assert forall|e: int|
            0 <= e < entries.len() && (forall|i: int|
                0 <= i < sounds.len() ==> (#[trigger] sounds[i]).object_id@ != entries[e].0@)
            implies now.contains(#[trigger] entries[e]) by {
            if e < last {
                assert(before.contains(front[e]));
                let k = choose|k: int| 0 <= k < before.len() && before[k] == front[e];
                assert(now[k] == entries[e]);
            } else {
                assert(!named(sounds, entries[e].0@));
                assert(now[before.len() as int] == entries[e]);
            }
        }
        assert forall|k: int| 0 <= k < now.len() implies entries.contains(#[trigger] now[k])
            && forall|i: int|
            0 <= i < sounds.len() ==> (#[trigger] sounds[i]).object_id@ != now[k].0@ by {
            if k < before.len() {
                assert(front.contains(before[k]));
                let e = choose|e: int| 0 <= e < front.len() && front[e] == before[k];
                assert(entries[e] == now[k]);
            } else {
                assert(entries[last] == now[k]);
                assert(!named(sounds, now[k].0@));
                assert forall|i: int| 0 <= i < sounds.len() implies (
                #[trigger] sounds[i]).object_id@ != now[k].0@ by {}
            }
        }
    }
}

/// Whether an adjustment brings a sound to where the server has it, as loud and as
/// high, and holds back as much of it as is hidden, from nothing to all.
pub open spec fn brings_in_line(
    f: Follow,
    sound: WireSoundState,
    occlusion: Table<Scalar>,
) -> bool {
    let one = Scalar { bits: 0x3f80_0000 };
    let zero = Scalar { bits: 0 };
    &&& f.object_id@ == sound.object_id@
    &&& f.position == sound.position
    &&& f.volume == sound.volume
    &&& f.pitch == sound.pitch
    &&& match occlusion.lookup(sound.object_id@) {
        None => f.occluded == zero,
        Some(o) => f.occluded == if o.below(zero) {
            zero
        } else if one.below(o) {
            one
        } else {
            o
        },
    }
}

/// Whether a sound cannot be begun with a clip, or has run out at once.
pub open spec fn cannot_play<C, A, B: Fn(&C, &WireSoundState) -> Option<A>, Z: Fn(&A) -> bool>(
    clip: C,
    sound: WireSoundState,
    begin: B,
    over: Z,
) -> bool {
    ||| call_ensures(begin, (&clip, &sound), None)
    ||| exists|a: A| #[trigger]
        call_ensures(begin, (&clip, &sound), Some(a)) && call_ensures(over, (&a,), true)
}

/// A sound that the server names plays on until it is over, and one that does not
/// play is begun with its clip, which is read unless it is kept. Whatever plays in
/// the end is brought in line with what the server says of it, and is not over. No
/// other sound is touched.
pub proof fn a_named_sound_plays_and_is_brought_in_line<
    C,
    A,
    L: Fn(&String) -> Option<C>,
    B: Fn(&C, &WireSoundState) -> Option<A>,
    Z: Fn(&A) -> bool,
>(
    after: ClientAudio<C, A>,
    before: ClientAudio<C, A>,
    sound: WireSoundState,
    occlusion: Table<Scalar>,
    load: L,
    begin: B,
    over: Z,
    f: Option<Follow>,
)
    requires
        dealt_with(after, before, sound, occlusion, load, begin, over, f),
    ensures
        forall|k: Seq<char>|
            k != sound.object_id@ ==> #[trigger] after.playing.lookup(k) == before.playing.lookup(
                k,
            ),
        forall|k: Seq<char>|
            before.clips.lookup(k) is Some ==> #[trigger] after.clips.lookup(k)
                == before.clips.lookup(k),
        forall|k: Seq<char>|
            k != sound.clip@ ==> #[trigger] after.clips.lookup(k) == before.clips.lookup(k),
        match after.playing.lookup(sound.object_id@) {
            Some(a) => {
                &&& f matches Some(f) && brings_in_line(f, sound, occlusion)
                &&& call_ensures(over, (&a,), false)
                &&& match before.playing.lookup(sound.object_id@) {
                    Some(b) => a == b,
                    None => after.clips.lookup(sound.clip@) matches Some(c) && call_ensures(
                        begin,
                        (&c, &sound),
                        Some(a),
                    ) && (before.clips.lookup(sound.clip@) is None ==> call_ensures(
                        load,
                        (&sound.clip,),
                        Some(c),
                    )),
                }
            },
            None => {
                &&& f is None
                &&& match before.playing.lookup(sound.object_id@) {
                    Some(b) => call_ensures(over, (&b,), true),
                    None => match after.clips.lookup(sound.clip@) {
                        Some(c) => cannot_play(c, sound, begin, over) && (before.clips.lookup(
                            sound.clip@,
                        ) is None ==> call_ensures(load, (&sound.clip,), Some(c))),
                        None => call_ensures(load, (&sound.clip,), None),
                    },
                }
            },
        },
{
    let id = sound.object_id@;
    let _ = after.playing.lookup(id);
    let _ = before.playing.lookup(id);
    let _ = after.clips.lookup(sound.clip@);
    if before.playing.holds(id) {
        let playing = before.playing.lookup(id)->0;
        assert(before.playing.lookup(id) is Some);
    } else {
        let mid = choose|mid: ClientAudio<C, A>| #[trigger]
            started(mid, before, sound, load, begin) && looked_after(
                after,
                mid,
                sound,
                occlusion,
                over,
                f,
            );
        let _ = mid.playing.lookup(id);
        let _ = mid.clips.lookup(sound.clip@);
        assert(before.playing.lookup(id) is None);
        match before.clips.lookup(sound.clip@) {
            Some(clip) => {
                let a = choose|a: Option<A>| #[trigger]
                    call_ensures(begin, (&clip, &sound), a) && match a {
                        Some(playing) => set(mid.playing, before.playing, id, playing),
                        None => mid.playing == before.playing,
                    };
                assert(call_ensures(begin, (&clip, &sound), a));
            },
            None => {
                let c = choose|c: Option<C>| #[trigger]
                    call_ensures(load, (&sound.clip,), c) && match c {
                        Some(clip) => set(mid.clips, before.clips, sound.clip@, clip) && begun(
                            mid.playing,
                            before.playing,
                            clip,
                            sound,
                            begin,
                        ),
                        None => mid == before,
                    };
                if let Some(clip) = c {
                    let a = choose|a: Option<A>| #[trigger]
                        call_ensures(begin, (&clip, &sound), a) && match a {
                            Some(playing) => set(mid.playing, before.playing, id, playing),
                            None => mid.playing == before.playing,
                        };
                    assert(call_ensures(begin, (&clip, &sound), a));
                }
            },
        }
    }
}

/// Every adjustment that a sound needs is made, and no other.
pub proof fn every_adjustment_is_made(list: Seq<Option<Follow>>)
    ensures
        forall|i: int|
            0 <= i < list.len() && #[trigger] list[i] is Some ==> adjustments(list).contains(
                list[i]->0,
            ),
        forall|k: int|
            0 <= k < adjustments(list).len() ==> list.contains(
                Some(#[trigger] adjustments(list)[k]),
            ),
    decreases list.len(),
{
    if list.len() > 0 {
        let front = list.drop_last();
        let before = adjustments(front);
        let now = adjustments(list);
        let last = list.len() - 1;
        every_adjustment_is_made(front);
        assert(forall|i: int| 0 <= i < front.len() ==> front[i] == #[trigger] list[i]);
        assert(forall|k: int| 0 <= k < before.len() ==> before[k] == #[trigger] now[k]);
        assert forall|i: int|
            0 <= i < list.len() && #[trigger] list[i] is Some implies now.contains(list[i]->0) by {
            if i < last {
                assert(front[i] is Some);
                let k = choose|k: int| 0 <= k < before.len() && before[k] == front[i]->0;
                assert(now[k] == list[i]->0);
            } else {
                assert(now[before.len() as int] == list[i]->0);
            }
        }
        assert forall|k: int| 0 <= k < now.len() implies list.contains(Some(#[trigger] now[k])) by {
            if k < before.len() {
                assert(front.contains(Some(before[k])));
                let i = choose|i: int| 0 <= i < front.len() && front[i] == Some(before[k]);
                assert(list[i] == Some(now[k]));
            } else {
                assert(list[last] == Some(now[k]));
            }
        }
    }
}

} // verus!
