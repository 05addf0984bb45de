use vstd::prelude::*;

use crate::synth::{AudioShape, AudioShapeSynthesizer, VoiceSample};

verus! {

/// A voice of the registry, under its handle id.
#[derive(Debug, Clone, Copy)]
pub struct Voice {
    pub id: u64,
    pub synth: AudioShapeSynthesizer,
}

/// The live voices of a session, in the order they were created, and the
/// number of samples produced so far. The voices are kept in a list rather
/// than a map so that they are mixed, and reported per frame, in a fixed
/// order: the order in which they were created.
pub struct SynthRegistry {
    total_samples: u64,
    latest_id: u64,
    voices: Vec<Voice>,
}

/// The voice may be dropped: it was released and has ramped down to silence.
pub open spec fn voice_finished(v: Voice) -> bool {
    v.synth.spec_finished()
}

/// The voices that are still sounding or still held, in order.
pub open spec fn still_playing(voices: Seq<Voice>) -> Seq<Voice>
    decreases voices.len(),
{
    if voices.len() == 0 {
        voices
    } else {
        let rest = still_playing(voices.drop_last());
        if voice_finished(voices.last()) {
            rest
        } else {
            rest.push(voices.last())
        }
    }
}

/// Ids strictly increasing along the sequence.
pub open spec fn ids_increasing(voices: Seq<Voice>) -> bool {
    forall|i: int, j: int| 0 <= i < j < voices.len() ==> voices[i].id < voices[j].id
}

/// What `still_playing` keeps: exactly the voices that are not finished, in
/// their order.
pub proof fn lemma_still_playing(s: Seq<Voice>)
    ensures
        forall|k: int|
            0 <= k < still_playing(s).len() ==> s.contains(#[trigger] still_playing(s)[k])
                && !voice_finished(still_playing(s)[k]),
        forall|j: int|
            0 <= j < s.len() && !voice_finished(s[j]) ==> still_playing(s).contains(#[trigger] s[j]),
        ids_increasing(s) ==> ids_increasing(still_playing(s)),
    decreases s.len(),
{
    if s.len() > 0 {
        let rest = s.drop_last();
        lemma_still_playing(rest);
        let r = still_playing(s);
        let rr = still_playing(rest);
        assert forall|k: int| 0 <= k < r.len() implies s.contains(#[trigger] r[k]) && !voice_finished(
            r[k],
        ) by {
            if k < rr.len() {
                assert(r[k] == rr[k]);
                let j = choose|j: int| 0 <= j < rest.len() && rest[j] == rr[k];
                assert(s[j] == rest[j]);
            } else {
                assert(r[k] == s.last());
                assert(s[s.len() - 1] == s.last());
            }
        }
        assert forall|j: int| 0 <= j < s.len() && !voice_finished(s[j]) implies r.contains(
            #[trigger] s[j],
        ) by {
            if j < s.len() - 1 {
                assert(rest[j] == s[j]);
                assert(rr.contains(rest[j]));
                let k = choose|k: int| 0 <= k < rr.len() && rr[k] == rest[j];
                assert(r[k] == rr[k]);
            } else {
                assert(r[r.len() - 1] == s[j]);
            }
        }
        if ids_increasing(s) {
            assert(ids_increasing(rest)) by {
                assert forall|i: int, j: int| 0 <= i < j < rest.len() implies rest[i].id
                    < rest[j].id by {
                    assert(rest[i] == s[i] && rest[j] == s[j]);
                }
            }
            assert forall|a: int, b: int| 0 <= a < b < r.len() implies r[a].id < r[b].id by {
                assert(r[a] == rr[a]);
                if b < rr.len() {
                    assert(r[b] == rr[b]);
                } else {
                    let j = choose|j: int| 0 <= j < rest.len() && rest[j] == rr[a];
                    assert(rest.contains(rr[a]));
                    assert(s[j] == rest[j]);
                    assert(r[b] == s[s.len() - 1]);
                }
            }
        }
    }
}

/// Each voice after one sample: same id, synthesizer stepped once.
pub open spec fn stepped(before: Voice, after: Voice) -> bool {
    &&& after.id == before.id
    &&& after.synth.wf()
    &&& after.synth.phase() == (before.synth.phase() + before.synth.delta()) % (
    crate::synth::PHASE_ONE as int)
    &&& after.synth.volume() == crate::synth::spec_step_toward(
        before.synth.volume(),
        before.synth.target().volume,
    )
    &&& after.synth.target() == before.synth.target()
    &&& after.synth.is_active() == before.synth.is_active()
    &&& after.synth.sample_rate() == before.synth.sample_rate()
    &&& after.synth.delta() == before.synth.delta()
}

/// Where a phase stands `k` samples on, advancing by `delta` each sample.
pub open spec fn phase_after(phase: u32, delta: u32, k: nat) -> u32
    decreases k,
{
    if k == 0 {
        phase
    } else {
        ((phase_after(phase, delta, (k - 1) as nat) + delta) % (crate::synth::PHASE_ONE as int)) as u32
    }
}

/// The amplitude `k` samples on, ramping toward `target`.
pub open spec fn volume_after(volume: u8, target: u8, k: nat) -> u8
    decreases k,
{
    if k == 0 {
        volume
    } else {
        crate::synth::spec_step_toward(volume_after(volume, target, (k - 1) as nat), target)
    }
}

/// What a voice contributes `k` samples on, if nothing retargets it meanwhile.
pub open spec fn sample_after(v: Voice, k: nat) -> VoiceSample {
    VoiceSample {
        waveform: v.synth.target().waveform,
        phase: phase_after(v.synth.phase(), v.synth.delta(), k),
        amplitude: volume_after(v.synth.volume(), v.synth.target().volume, k),
    }
}

/// The frame that `voices` give `k` samples on: one entry per voice, in order.
pub open spec fn frame_after(voices: Seq<Voice>, k: nat) -> Seq<VoiceSample> {
    Seq::new(voices.len(), |i: int| sample_after(voices[i], k))
}

/// `after` is `before` with every voice run `n` samples on and nothing
/// retargeted in between.
pub open spec fn advanced(before: Seq<Voice>, after: Seq<Voice>, n: nat) -> bool {
    &&& after.len() == before.len()
    &&& forall|i: int|
        0 <= i < before.len() ==> {
            let a = #[trigger] after[i];
            let b = before[i];
            &&& a.id == b.id
            &&& a.synth.phase() == phase_after(b.synth.phase(), b.synth.delta(), n)
            &&& a.synth.volume() == volume_after(b.synth.volume(), b.synth.target().volume, n)
            &&& a.synth.target() == b.synth.target()
            &&& a.synth.is_active() == b.synth.is_active()
            &&& a.synth.delta() == b.synth.delta()
            &&& a.synth.sample_rate() == b.synth.sample_rate()
        }
}

/// Every voice of `before` other than `id` is still there with the same target.
pub open spec fn others_kept(before: SynthRegistry, after: SynthRegistry, id: Option<u64>) -> bool {
    forall|x: u64|
        before.has_id(x) && id != Some(x) ==> after.has_id(x) && #[trigger] after.target_of(x)
            == before.target_of(x)
}

/// A voice that was there is still there.
pub proof fn lemma_keeps_has_id(a: SynthRegistry, b: SynthRegistry)
    requires
        keeps_voices(a, b),
    ensures
        forall|id: u64| a.has_id(id) ==> #[trigger] b.has_id(id),
{
    assert forall|id: u64| a.has_id(id) implies #[trigger] b.has_id(id) by {
        let i = choose|i: int| 0 <= i < a.voices().len() && a.voices()[i].id == id;
        assert(b.voices()[i].id == id);
    }
}

/// Last voice's id is there.
pub proof fn lemma_last_has_id(r: SynthRegistry)
    requires
        r.voices().len() > 0,
    ensures
        r.has_id(r.voices().last().id),
{
    assert(r.voices()[r.voices().len() - 1].id == r.voices().last().id);
}

pub proof fn lemma_others_kept_chain(
    a: SynthRegistry,
    b: SynthRegistry,
    c: SynthRegistry,
    id: Option<u64>,
)
    requires
        others_kept(a, b, id),
        others_kept(b, c, id),
    ensures
        others_kept(a, c, id),
{
    assert forall|x: u64| a.has_id(x) && id != Some(x) implies c.has_id(x) && #[trigger] c.target_of(x)
        == a.target_of(x) by {
        assert(b.target_of(x) == a.target_of(x));
        assert(c.target_of(x) == b.target_of(x));
    }
}

/// `after` holds every voice of `before` at the same place under the same id,
/// perhaps followed by new ones, and no sample was produced in between.
pub open spec fn keeps_voices(before: SynthRegistry, after: SynthRegistry) -> bool {
    &&& before.voices().len() <= after.voices().len()
    &&& forall|i: int|
        0 <= i < before.voices().len() ==> (#[trigger] after.voices()[i]).id == before.voices()[i].id
    &&& after.total_samples() == before.total_samples()
    &&& before.latest_id() <= after.latest_id()
}

/// The voice's synthesizer was retargeted to `t` and nothing else moved.
pub open spec fn retargeted(before: Voice, after: Voice, t: AudioShape) -> bool {
    &&& after.id == before.id
    &&& after.synth.wf()
    &&& after.synth.target() == t
    &&& after.synth.volume() == before.synth.volume()
    &&& after.synth.phase() == before.synth.phase()
    &&& after.synth.is_active() == before.synth.is_active()
    &&& after.synth.sample_rate() == before.synth.sample_rate()
}

/// A voice that can still be heard, or that was not released, survives the
/// removal of finished voices. Every other operation on the registry keeps
/// all its voices (`keeps_voices`), so no interleaving of retargeting,
/// sampling and clean-up ever drops an audible voice.
pub proof fn lemma_audible_voice_is_kept(voices: Seq<Voice>, i: int)
    requires
        0 <= i < voices.len(),
        voices[i].synth.volume() != 0 || voices[i].synth.is_active(),
    ensures
        still_playing(voices).contains(voices[i]),
{
    lemma_still_playing(voices);
}

impl SynthRegistry {
    pub closed spec fn voices(self) -> Seq<Voice> {
        self.voices@
    }

    pub closed spec fn latest_id(self) -> u64 {
        self.latest_id
    }

    pub closed spec fn total_samples(self) -> nat {
        self.total_samples as nat
    }

    /// Every voice is well formed, and ids are positive, strictly increasing
    /// in creation order and at most the latest id handed out.
    pub open spec fn wf(self) -> bool {
        &&& forall|i: int| 0 <= i < self.voices().len() ==> #[trigger] self.voices()[i].synth.wf()
        &&& forall|i: int|
            0 <= i < self.voices().len() ==> 0 < #[trigger] self.voices()[i].id <= self.latest_id()
        &&& forall|i: int, j: int|
            0 <= i < j < self.voices().len() ==> self.voices()[i].id < self.voices()[j].id
    }

    /// Whether a voice with this id is in the registry.
    pub open spec fn has_id(self, id: u64) -> bool {
        exists|i: int| 0 <= i < self.voices().len() && self.voices()[i].id == id
    }

    /// The target shape of the voice under `id`.
    pub open spec fn target_of(self, id: u64) -> AudioShape {
        let i = choose|i: int| 0 <= i < self.voices().len() && self.voices()[i].id == id;
        self.voices()[i].synth.target()
    }

    pub proof fn lemma_target_of(self, i: int)
        requires
            self.wf(),
            0 <= i < self.voices().len(),
        ensures
            self.has_id(self.voices()[i].id),
            self.target_of(self.voices()[i].id) == self.voices()[i].synth.target(),
    {
        self.lemma_ids_unique(i);
    }

    /// A change that leaves every voice but `id` as it was keeps their targets.
    pub proof fn lemma_others_kept(self, after: SynthRegistry, id: u64)
        requires
            self.wf(),
            after.wf(),
            self.voices().len() <= after.voices().len(),
            forall|i: int|
                0 <= i < self.voices().len() && self.voices()[i].id != id ==> #[trigger] after.voices()[i]
                    == self.voices()[i],
        ensures
            others_kept(self, after, Some(id)),
    {
        assert forall|x: u64| self.has_id(x) && Some(id) != Some(x) implies after.has_id(x)
            && #[trigger] after.target_of(x) == self.target_of(x) by {
            let i = choose|i: int| 0 <= i < self.voices().len() && self.voices()[i].id == x;
            self.lemma_target_of(i);
            assert(after.voices()[i] == self.voices()[i]);
            after.lemma_target_of(i);
        }
    }

    /// Adding a voice at the end leaves the targets of the others alone.
    pub proof fn lemma_push_keeps_targets(self, after: SynthRegistry, v: Voice)
        requires
            self.wf(),
            after.wf(),
            after.voices() == self.voices().push(v),
        ensures
            forall|id: u64|
                self.has_id(id) ==> after.has_id(id) && #[trigger] after.target_of(id)
                    == self.target_of(id),
    {
        assert forall|id: u64| self.has_id(id) implies after.has_id(id) && #[trigger] after.target_of(id)
            == self.target_of(id) by {
            let i = choose|i: int| 0 <= i < self.voices().len() && self.voices()[i].id == id;
            self.lemma_target_of(i);
            assert(after.voices()[i] == self.voices()[i]);
            after.lemma_target_of(i);
        }
    }

    pub fn new() -> (r: SynthRegistry)
        ensures
            r.wf(),
            r.voices() == Seq::<Voice>::empty(),
            r.total_samples() == 0,
            r.latest_id() == 0,
    {
        SynthRegistry { total_samples: 0, latest_id: 0, voices: Vec::new() }
    }

    /// Adds a voice under a fresh id; `None` once every id has been used.
    pub fn insert(&mut self, synth: AudioShapeSynthesizer) -> (r: Option<u64>)
        requires
            old(self).wf(),
            synth.wf(),
        ensures
            keeps_voices(*old(self), *final(self)),
            final(self).wf(),
            final(self).total_samples() == old(self).total_samples(),
            old(self).latest_id() == u64::MAX ==> r is None && final(self).voices() == old(
                self,
            ).voices(),
            old(self).latest_id() < u64::MAX ==> r == Some((old(self).latest_id() + 1) as u64)
                && final(self).latest_id() == old(self).latest_id() + 1 && final(self).voices()
                == old(self).voices().push(Voice { id: r.unwrap(), synth }),
            r matches Some(id) ==> !old(self).has_id(id),
    {
        if self.latest_id == u64::MAX {
            return None;
        }
        self.latest_id = self.latest_id + 1;
        let id = self.latest_id;
        self.voices.push(Voice { id, synth });
        proof {
            let vs = self.voices@;
            assert(vs == old(self).voices().push(Voice { id, synth }));
            assert forall|i: int| 0 <= i < vs.len() implies #[trigger] vs[i].synth.wf() && 0
                < vs[i].id <= self.latest_id by {
                if i < vs.len() - 1 {
                    assert(vs[i] == old(self).voices()[i]);
                }
            }
            assert forall|i: int, j: int| 0 <= i < j < vs.len() implies vs[i].id < vs[j].id by {
                assert(vs[i] == old(self).voices()[i]);
                if j < vs.len() - 1 {
                    assert(vs[j] == old(self).voices()[j]);
                }
            }
        }
        Some(id)
    }

    fn index_of(&self, id: u64) -> (r: Option<usize>)
        requires
            self.wf(),
        ensures
            r matches Some(i) ==> i < self.voices().len() && self.voices()[i as int].id == id,
            r is None ==> !self.has_id(id),
    {
        let mut i: usize = 0;
        while i < self.voices.len()
            invariant
                i <= self.voices().len(),
                forall|k: int| 0 <= k < i ==> self.voices()[k].id != id,
            decreases self.voices().len() - i,
        {
            if self.voices[i].id == id {
                return Some(i);
            }
            i = i + 1;
        }
        None
    }

    /// The target shape of voice `id`, if it is in the registry.
    pub fn get_shape(&self, id: u64) -> (r: Option<AudioShape>)
        requires
            self.wf(),
        ensures
            r is None <==> !self.has_id(id),
            forall|i: int|
                0 <= i < self.voices().len() && self.voices()[i].id == id ==> r == Some(
                    self.voices()[i].synth.target(),
                ),
    {
        match self.index_of(id) {
            Some(i) => {
                proof {
                    self.lemma_ids_unique(i as int);
                }
                Some(self.voices[i].synth.get_target())
            },
            None => None,
        }
    }

    proof fn lemma_ids_unique(self, i: int)
        requires
            self.wf(),
            0 <= i < self.voices().len(),
        ensures
            forall|j: int|
                0 <= j < self.voices().len() && self.voices()[j].id == self.voices()[i].id ==> j
                    == i,
    {
        assert forall|j: int|
            0 <= j < self.voices().len() && self.voices()[j].id == self.voices()[i].id implies j
            == i by {
            if j < i {
                assert(self.voices()[j].id < self.voices()[i].id);
            } else if j > i {
                assert(self.voices()[i].id < self.voices()[j].id);
            }
        }
    }

    /// Sets the target shape of voice `id`; does nothing if there is none.
    pub fn retarget(&mut self, id: u64, target: AudioShape)
        requires
            old(self).wf(),
        ensures
            keeps_voices(*old(self), *final(self)),
            final(self).wf(),
            final(self).latest_id() == old(self).latest_id(),
            final(self).total_samples() == old(self).total_samples(),
            final(self).voices().len() == old(self).voices().len(),
            forall|i: int|
                0 <= i < old(self).voices().len() ==> if old(self).voices()[i].id == id {
                    retargeted(old(self).voices()[i], #[trigger] final(self).voices()[i], target)
                } else {
                    final(self).voices()[i] == old(self).voices()[i]
                },
    {
        match self.index_of(id) {
            Some(i) => {
                proof {
                    self.lemma_ids_unique(i as int);
                }
                let mut v = self.voices[i];
                v.synth.update_target(target);
                self.voices.set(i, v);
            },
            None => {},
        }
    }

    /// Releases voice `id`: it ramps down to silence and is then removed.
    pub fn make_inactive(&mut self, id: u64)
        requires
            old(self).wf(),
        ensures
            keeps_voices(*old(self), *final(self)),
            final(self).wf(),
            final(self).latest_id() == old(self).latest_id(),
            final(self).total_samples() == old(self).total_samples(),
            final(self).voices().len() == old(self).voices().len(),
            forall|i: int|
                0 <= i < old(self).voices().len() ==> if old(self).voices()[i].id == id {
                    &&& (#[trigger] final(self).voices()[i]).id == id
                    &&& !final(self).voices()[i].synth.is_active()
                    &&& final(self).voices()[i].synth.target() == (AudioShape {
                        volume: 0,
                        ..old(self).voices()[i].synth.target()
                    })
                    &&& final(self).voices()[i].synth.volume() == old(
                        self,
                    ).voices()[i].synth.volume()
                    &&& final(self).voices()[i].synth.phase() == old(
                        self,
                    ).voices()[i].synth.phase()
                } else {
                    final(self).voices()[i] == old(self).voices()[i]
                },
    {
        match self.index_of(id) {
            Some(i) => {
                proof {
                    self.lemma_ids_unique(i as int);
                }
                let mut v = self.voices[i];
                v.synth.make_inactive();
                self.voices.set(i, v);
            },
            None => {},
        }
    }

    /// Drops every voice that was released and has ramped down to silence;
    /// all others stay, in order.
    pub fn remove_finished_synths(&mut self)
        requires
            old(self).wf(),
        ensures
            final(self).wf(),
            final(self).latest_id() == old(self).latest_id(),
            final(self).total_samples() == old(self).total_samples(),
            final(self).voices() == still_playing(old(self).voices()),
            forall|v: Voice|
                old(self).voices().contains(v) && !final(self).voices().contains(v) ==> (
                !v.synth.is_active() && v.synth.volume() == 0),
    {
        let ghost before = self.voices@;
        let mut kept: Vec<Voice> = Vec::new();
        let mut i: usize = 0;
        while i < self.voices.len()
            invariant
                self.voices@ == before,
                before == old(self).voices(),
                old(self).wf(),
                self.latest_id == old(self).latest_id(),
                self.total_samples == old(self).total_samples(),
                i <= before.len(),
                kept@ == still_playing(before.subrange(0, i as int)),
            decreases before.len() - i,
        {
            let v = self.voices[i];
            let keep = !v.synth.has_finished_playing();
            proof {
                let next = before.subrange(0, i + 1);
                assert(next.drop_last() == before.subrange(0, i as int));
                assert(next.last() == v);
            }
            if keep {
                kept.push(v);
            }
            i = i + 1;
        }
        proof {
            assert(before.subrange(0, before.len() as int) == before);
            lemma_still_playing(before);
            assert(ids_increasing(before));
            assert forall|k: int| 0 <= k < kept@.len() implies (#[trigger] kept@[k]).synth.wf()
                && 0 < kept@[k].id <= self.latest_id by {
                let j = choose|j: int| 0 <= j < before.len() && before[j] == kept@[k];
            }
            assert forall|v: Voice| before.contains(v) && !kept@.contains(v) implies (
            !v.synth.is_active() && v.synth.volume() == 0) by {
                let j = choose|j: int| 0 <= j < before.len() && before[j] == v;
            }
        }
        self.voices = kept;
    }

    /// Steps every voice by one sample and returns what each contributes,
    /// in registry order.
    pub fn next_sample(&mut self) -> (r: Vec<VoiceSample>)
        requires
            old(self).wf(),
            old(self).total_samples() < u64::MAX,
        ensures
            final(self).wf(),
            final(self).latest_id() == old(self).latest_id(),
            final(self).total_samples() == old(self).total_samples() + 1,
            final(self).voices().len() == old(self).voices().len(),
            r@.len() == old(self).voices().len(),
            forall|i: int|
                0 <= i < old(self).voices().len() ==> stepped(
                    old(self).voices()[i],
                    #[trigger] final(self).voices()[i],
                ) && r@[i] == (VoiceSample {
                    waveform: old(self).voices()[i].synth.target().waveform,
                    phase: old(self).voices()[i].synth.phase(),
                    amplitude: old(self).voices()[i].synth.volume(),
                }),
            forall|i: int|
                0 <= i < old(self).voices().len() ==> -1 <= (#[trigger] final(self).voices()[i]).synth.volume()
                    - old(self).voices()[i].synth.volume() <= 1,
    {
        let ghost before = self.voices@;
        let mut out: Vec<VoiceSample> = Vec::new();
        let mut i: usize = 0;
        while i < self.voices.len()
            invariant
                old(self).wf(),
                before == old(self).voices(),
                self.latest_id == old(self).latest_id(),
                self.total_samples == old(self).total_samples(),
                self.voices@.len() == before.len(),
                i <= before.len(),
                out@.len() == i,
                forall|k: int| 0 <= k < i ==> stepped(before[k], #[trigger] self.voices@[k]),
                forall|k: int|
                    0 <= k < i ==> #[trigger] out@[k] == (VoiceSample {
                        waveform: before[k].synth.target().waveform,
                        phase: before[k].synth.phase(),
                        amplitude: before[k].synth.volume(),
                    }),
                forall|k: int| i <= k < before.len() ==> #[trigger] self.voices@[k] == before[k],
            decreases before.len() - i,
        {
            let mut v = self.voices[i];
            assert(v.synth.wf());
            let s = v.synth.next();
            self.voices.set(i, v);
            out.push(s);
            i = i + 1;
        }
        proof {
            assert forall|i: int| 0 <= i < before.len() implies -1 <= (
            #[trigger] self.voices@[i]).synth.volume() - before[i].synth.volume() <= 1 by {
                crate::synth::lemma_amplitude_slew_is_bounded(
                    before[i].synth.volume(),
                    before[i].synth.target().volume,
                );
            }
        }
        self.total_samples = self.total_samples + 1;
        out
    }

    pub fn get_total_samples(&self) -> (r: u64)
        ensures
            r == self.total_samples(),
    {
        self.total_samples
    }

    pub fn is_empty(&self) -> (r: bool)
        ensures
            r == (self.voices().len() == 0),
    {
        self.voices.len() == 0
    }

    /// The live voices, in creation order.
    pub fn voice_list(&self) -> (r: &Vec<Voice>)
        ensures
            r@ == self.voices(),
    {
        &self.voices
    }
}

} // verus!
