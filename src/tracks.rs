use vstd::prelude::*;

use crate::synth::{spec_step_toward, AudioShape, AudioShapeSynthesizer, VoiceSample, PHASE_ONE};

verus! {

/// A fixed set of voices, one per shared shape, retargeted whenever the
/// shared shapes can be read without waiting.
pub struct Tracks {
    synths: Vec<AudioShapeSynthesizer>,
}

impl Tracks {
    pub closed spec fn synths(self) -> Seq<AudioShapeSynthesizer> {
        self.synths@
    }

    pub open spec fn wf(self) -> bool {
        forall|i: int| 0 <= i < self.synths().len() ==> (#[trigger] self.synths()[i]).wf()
    }

    /// One voice for each shape, each starting silent.
    pub fn new(shapes: &Vec<AudioShape>, sample_rate: u64) -> (r: Tracks)
        requires
            sample_rate > 0,
        ensures
            r.wf(),
            r.synths().len() == shapes@.len(),
            forall|i: int|
                0 <= i < shapes@.len() ==> (#[trigger] r.synths()[i]).target() == shapes@[i]
                    && r.synths()[i].volume() == 0 && r.synths()[i].phase() == 0,
    {
        let mut synths: Vec<AudioShapeSynthesizer> = Vec::new();
        let mut i: usize = 0;
        while i < shapes.len()
            invariant
                sample_rate > 0,
                i <= shapes@.len(),
                synths@.len() == i,
                forall|k: int|
                    0 <= k < i ==> (#[trigger] synths@[k]).wf() && synths@[k].target() == shapes@[k]
                        && synths@[k].volume() == 0 && synths@[k].phase() == 0,
            decreases shapes@.len() - i,
        {
            synths.push(AudioShapeSynthesizer::new(shapes[i], sample_rate));
            i = i + 1;
        }
        Tracks { synths }
    }

    /// Retargets the voices to the shapes, pairwise, when they could be read
    /// (`Some`); when they could not, nothing changes until the next try.
    pub fn try_to_update(&mut self, shapes: Option<&Vec<AudioShape>>)
        requires
            old(self).wf(),
        ensures
            final(self).wf(),
            final(self).synths().len() == old(self).synths().len(),
            shapes is None ==> final(self).synths() == old(self).synths(),
            shapes matches Some(s) ==> forall|i: int|
                0 <= i < old(self).synths().len() ==> if i < s@.len() {
                    (#[trigger] final(self).synths()[i]).target() == s@[i]
                        && final(self).synths()[i].volume() == old(self).synths()[i].volume()
                        && final(self).synths()[i].phase() == old(self).synths()[i].phase()
                } else {
                    final(self).synths()[i] == old(self).synths()[i]
                },
    {
        match shapes {
            None => {},
            Some(s) => {
                let mut i: usize = 0;
                while i < self.synths.len() && i < s.len()
                    invariant
                        self.wf(),
                        self.synths().len() == old(self).synths().len(),
                        i <= self.synths().len(),
                        i <= s@.len(),
                        forall|k: int|
                            0 <= k < i ==> (#[trigger] self.synths()[k]).target() == s@[k]
                                && self.synths()[k].volume() == old(self).synths()[k].volume()
                                && self.synths()[k].phase() == old(self).synths()[k].phase(),
                        forall|k: int|
                            i <= k < self.synths().len() ==> #[trigger] self.synths()[k] == old(
                                self,
                            ).synths()[k],
                    decreases self.synths().len() - i,
                {
                    let mut synth = self.synths[i];
                    synth.update_target(s[i]);
                    self.synths.set(i, synth);
                    i = i + 1;
                }
                assert(i == self.synths().len() || i == s@.len());
            },
        }
    }

    /// Steps every voice by one sample and returns what each contributes.
    pub fn next(&mut self) -> (r: Vec<VoiceSample>)
        requires
            old(self).wf(),
        ensures
            final(self).wf(),
            final(self).synths().len() == old(self).synths().len(),
            r@.len() == old(self).synths().len(),
            forall|i: int|
                0 <= i < r@.len() ==> (#[trigger] final(self).synths()[i]).phase() == (old(
                    self,
                ).synths()[i].phase() + old(self).synths()[i].delta()) % (PHASE_ONE as int)
                    && final(self).synths()[i].volume() == spec_step_toward(
                    old(self).synths()[i].volume(),
                    old(self).synths()[i].target().volume,
                ) && final(self).synths()[i].target() == old(self).synths()[i].target()
                    && final(self).synths()[i].is_active() == old(self).synths()[i].is_active(),
            forall|i: int|
                0 <= i < r@.len() ==> #[trigger] r@[i] == (VoiceSample {
                    waveform: old(self).synths()[i].target().waveform,
                    phase: old(self).synths()[i].phase(),
                    amplitude: old(self).synths()[i].volume(),
                }),
    {
        let mut out: Vec<VoiceSample> = Vec::new();
        let mut i: usize = 0;
        while i < self.synths.len()
            invariant
                self.wf(),
                self.synths().len() == old(self).synths().len(),
                i <= self.synths().len(),
                out@.len() == i,
                forall|k: int|
                    0 <= k < i ==> (#[trigger] self.synths()[k]).phase() == (old(
                        self,
                    ).synths()[k].phase() + old(self).synths()[k].delta()) % (PHASE_ONE as int)
                        && self.synths()[k].volume() == spec_step_toward(
                        old(self).synths()[k].volume(),
                        old(self).synths()[k].target().volume,
                    ) && self.synths()[k].target() == old(self).synths()[k].target()
                        && self.synths()[k].is_active() == old(self).synths()[k].is_active(),
                forall|k: int|
                    0 <= k < i ==> #[trigger] out@[k] == (VoiceSample {
                        waveform: old(self).synths()[k].target().waveform,
                        phase: old(self).synths()[k].phase(),
                        amplitude: old(self).synths()[k].volume(),
                    }),
                forall|k: int|
                    i <= k < self.synths().len() ==> #[trigger] self.synths()[k] == old(
                        self,
                    ).synths()[k],
            decreases self.synths().len() - i,
        {
            let mut synth = self.synths[i];
            let sample = synth.next();
            self.synths.set(i, synth);
            out.push(sample);
            i = i + 1;
        }
        out
    }
}

} // verus!
