use vstd::prelude::*;

verus! {

#[derive(Debug, Clone, Copy, PartialEq, Eq, Structural)]
pub enum Waveform {
    Sine,
    Square,
    Triangle,
    Sawtooth,
}

impl Default for Waveform {
    fn default() -> (r: Waveform)
        ensures
            r == Waveform::Sine,
    {
        Waveform::Sine
    }
}

/// What a voice is asked to sound like. The frequency is in millihertz;
/// zero means silence.
#[derive(Debug, Clone, Copy, PartialEq, Eq, Structural)]
pub struct AudioShape {
    pub waveform: Waveform,
    pub frequency: u64,
    pub volume: u8,
}

impl Default for AudioShape {
    fn default() -> (r: AudioShape)
        ensures
            r == (AudioShape { waveform: Waveform::Sine, frequency: 0, volume: 0 }),
    {
        AudioShape { waveform: Waveform::Sine, frequency: 0, volume: 0 }
    }
}

/// A position in one cycle of a wave, as a fraction of `PHASE_ONE`.
pub const PHASE_ONE: u128 = 0x1_0000_0000;

/// How far the phase moves in one sample: `frequency / sample_rate` cycles,
/// in units of `1 / PHASE_ONE`, rounded down and taken modulo one cycle.
pub open spec fn spec_wave_delta(sample_rate: nat, frequency_mhz: nat) -> u32 {
    if frequency_mhz == 0 {
        0
    } else {
        (((frequency_mhz * PHASE_ONE) as int / (sample_rate * 1000) as int) % (PHASE_ONE as int)) as u32
    }
}

/// The new amplitude after one step toward `target`.
pub open spec fn spec_step_toward(volume: u8, target: u8) -> u8 {
    if volume < target {
        (volume + 1) as u8
    } else if volume > target {
        (volume - 1) as u8
    } else {
        volume
    }
}

/// What one voice contributes to one sample: the waveform, where in the
/// cycle it stands, and its amplitude out of 255.
#[derive(Debug, Clone, Copy, PartialEq, Eq, Structural)]
pub struct VoiceSample {
    pub waveform: Waveform,
    pub phase: u32,
    pub amplitude: u8,
}

/// One oscillator: a phase that advances each sample, and an amplitude that
/// ramps by one unit per sample toward the target volume.
#[derive(Debug, Clone, Copy)]
pub struct AudioShapeSynthesizer {
    sample_rate: u64,
    pos_in_wave: u32,
    volume: u8,
    wave_delta_per_sample: u32,
    is_active: bool,
    target: AudioShape,
}

pub fn calculate_wave_delta_per_sample(sample_rate: u64, frequency: u64) -> (r: u32)
    requires
        sample_rate > 0,
    ensures
        r == spec_wave_delta(sample_rate as nat, frequency as nat),
{
    if frequency == 0 {
        0
    } else {
        let denom: u128 = sample_rate as u128 * 1000;
        assert(frequency * PHASE_ONE <= u64::MAX * PHASE_ONE) by (nonlinear_arith)
            requires
                frequency <= u64::MAX,
        ;
        let cycles: u128 = (frequency as u128 * PHASE_ONE) / denom;
        (cycles % PHASE_ONE) as u32
    }
}

impl AudioShapeSynthesizer {
    pub closed spec fn sample_rate(self) -> nat {
        self.sample_rate as nat
    }

    pub closed spec fn phase(self) -> u32 {
        self.pos_in_wave
    }

    pub closed spec fn volume(self) -> u8 {
        self.volume
    }

    pub closed spec fn delta(self) -> u32 {
        self.wave_delta_per_sample
    }

    pub closed spec fn is_active(self) -> bool {
        self.is_active
    }

    pub closed spec fn target(self) -> AudioShape {
        self.target
    }

    /// A positive sample rate, and a phase step that matches the target frequency.
    pub open spec fn wf(self) -> bool {
        self.sample_rate() > 0 && self.delta() == spec_wave_delta(
            self.sample_rate(),
            self.target().frequency as nat,
        )
    }

    /// Inactive and silent: the voice may be dropped.
    pub open spec fn spec_finished(self) -> bool {
        !self.is_active() && self.volume() == 0
    }

    pub fn new(target: AudioShape, sample_rate: u64) -> (r: AudioShapeSynthesizer)
        requires
            sample_rate > 0,
        ensures
            r.wf(),
            r.sample_rate() == sample_rate,
            r.phase() == 0,
            r.volume() == 0,
            r.is_active(),
            r.target() == target,
    {
        AudioShapeSynthesizer {
            sample_rate,
            pos_in_wave: 0,
            volume: 0,
            target,
            wave_delta_per_sample: calculate_wave_delta_per_sample(sample_rate, target.frequency),
            is_active: true,
        }
    }

    /// Marks the voice as released: it ramps down to silence and is then finished.
    pub fn make_inactive(&mut self)
        ensures
            !final(self).is_active(),
            old(self).wf() ==> final(self).wf(),
            final(self).target() == (AudioShape { volume: 0, ..old(self).target() }),
            final(self).volume() == old(self).volume(),
            final(self).phase() == old(self).phase(),
            final(self).sample_rate() == old(self).sample_rate(),
            final(self).delta() == old(self).delta(),
    {
        self.is_active = false;
        self.target.volume = 0;
    }

    pub fn has_finished_playing(&self) -> (r: bool)
        ensures
            r == self.spec_finished(),
    {
        !self.is_active && self.volume == 0
    }

    pub fn get_target(&self) -> (r: AudioShape)
        ensures
            r == self.target(),
    {
        self.target
    }

    pub fn get_volume(&self) -> (r: u8)
        ensures
            r == self.volume(),
    {
        self.volume
    }

    /// Retargets the voice without moving its phase or amplitude.
    pub fn update_target(&mut self, target: AudioShape)
        requires
            old(self).wf(),
        ensures
            final(self).wf(),
            final(self).target() == target,
            final(self).volume() == old(self).volume(),
            final(self).phase() == old(self).phase(),
            final(self).is_active() == old(self).is_active(),
            final(self).sample_rate() == old(self).sample_rate(),
    {
        self.target = target;
        self.wave_delta_per_sample = calculate_wave_delta_per_sample(
            self.sample_rate,
            self.target.frequency,
        );
    }

    fn move_to_target_volume(&mut self)
        ensures
            final(self).volume() == spec_step_toward(old(self).volume(), old(self).target().volume),
            final(self).target() == old(self).target(),
            final(self).phase() == old(self).phase(),
            final(self).is_active() == old(self).is_active(),
            final(self).sample_rate() == old(self).sample_rate(),
            final(self).delta() == old(self).delta(),
    {
        let target = self.target.volume;
        if self.volume == target {
            return ;
        }
        if self.volume < target {
            self.volume = self.volume + 1;
        } else {
            self.volume = self.volume - 1;
        }
    }

    /// Produces this sample's contribution, then advances the phase by one
    /// sample (wrapping at one cycle) and the amplitude by one step.
    pub fn next(&mut self) -> (r: VoiceSample)
        requires
            old(self).wf(),
        ensures
            final(self).wf(),
            r == (VoiceSample {
                waveform: old(self).target().waveform,
                phase: old(self).phase(),
                amplitude: old(self).volume(),
            }),
            final(self).phase() == (old(self).phase() + old(self).delta()) % (PHASE_ONE as int),
            final(self).volume() == spec_step_toward(old(self).volume(), old(self).target().volume),
            final(self).target() == old(self).target(),
            final(self).is_active() == old(self).is_active(),
            final(self).sample_rate() == old(self).sample_rate(),
            final(self).delta() == old(self).delta(),
    {
        let value = VoiceSample {
            waveform: self.target.waveform,
            phase: self.pos_in_wave,
            amplitude: self.volume,
        };
        self.pos_in_wave = self.pos_in_wave.wrapping_add(self.wave_delta_per_sample);
        self.move_to_target_volume();
        value
    }
}

/// One step never moves the amplitude by more than one unit, and never past
/// the target.
pub proof fn lemma_amplitude_slew_is_bounded(volume: u8, target: u8)
    ensures
        -1 <= spec_step_toward(volume, target) - volume <= 1,
        volume <= target ==> volume <= spec_step_toward(volume, target) <= target,
        volume >= target ==> target <= spec_step_toward(volume, target) <= volume,
        spec_step_toward(volume, target) == volume <==> volume == target,
{
}

} // verus!
