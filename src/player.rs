use vstd::prelude::*;

use crate::instrument::{
    entry_target, fresh_in_order, fresh_voice, lemma_fresh_extend, settle, spawn_matches,
    start_after_poll, Instrument,
};
use crate::synth::{AudioShape, AudioShapeSynthesizer, VoiceSample};
use crate::synth_registry::{
    others_kept, advanced, frame_after, keeps_voices, phase_after, retargeted, still_playing, volume_after, SynthRegistry,
};

verus! {

/// A handle on one voice of the registry. Releasing it lets the voice ramp
/// down to silence instead of cutting it off.
#[derive(Debug)]
pub struct AudioShapeProxy {
    id: u64,
}

/// Every voice of `before` under `id` has its target changed to what `f`
/// makes of its old target, and no other voice changes.
pub open spec fn retargeted_by(
    before: SynthRegistry,
    after: SynthRegistry,
    id: u64,
    f: spec_fn(AudioShape) -> AudioShape,
) -> bool {
    &&& after.voices().len() == before.voices().len()
    &&& forall|i: int|
        0 <= i < before.voices().len() ==> if before.voices()[i].id == id {
            retargeted(before.voices()[i], #[trigger] after.voices()[i], f(before.voices()[i].synth.target()))
        } else {
            after.voices()[i] == before.voices()[i]
        }
}

impl AudioShapeProxy {
    pub closed spec fn id(self) -> u64 {
        self.id
    }

    /// Creates a voice with target `shape`; `None` once the registry has no
    /// fresh id left.
    pub fn new(registry: &mut SynthRegistry, shape: AudioShape, sample_rate: u64) -> (r: Option<
        AudioShapeProxy,
    >)
        requires
            old(registry).wf(),
            sample_rate > 0,
        ensures
            final(registry).wf(),
            keeps_voices(*old(registry), *final(registry)),
            r matches Some(p) ==> {
                &&& final(registry).voices() == old(registry).voices().push(
                    final(registry).voices().last(),
                )
                &&& p.id() == old(registry).latest_id() + 1
                &&& final(registry).latest_id() == p.id()
                &&& final(registry).voices().last().id == p.id()
                &&& !old(registry).has_id(p.id())
                &&& final(registry).voices().last().synth.target() == shape
                &&& final(registry).voices().last().synth.volume() == 0
                &&& final(registry).voices().last().synth.is_active()
            },
            r is None ==> final(registry).voices() == old(registry).voices(),
            r is None <==> old(registry).latest_id() == u64::MAX,
    {
        let synth = AudioShapeSynthesizer::new(shape, sample_rate);
        match registry.insert(synth) {
            Some(id) => Some(AudioShapeProxy { id }),
            None => None,
        }
    }

    pub fn set_frequency(&self, registry: &mut SynthRegistry, frequency: u64)
        requires
            old(registry).wf(),
        ensures
            final(registry).wf(),
            keeps_voices(*old(registry), *final(registry)),
            final(registry).latest_id() == old(registry).latest_id(),
            retargeted_by(
                *old(registry),
                *final(registry),
                self.id(),
                |t: AudioShape| AudioShape { frequency, ..t },
            ),
    {
        match registry.get_shape(self.id) {
            Some(shape) => registry.retarget(self.id, AudioShape { frequency, ..shape }),
            None => {},
        }
    }

    pub fn set_volume(&self, registry: &mut SynthRegistry, volume: u8)
        requires
            old(registry).wf(),
        ensures
            final(registry).wf(),
            keeps_voices(*old(registry), *final(registry)),
            final(registry).latest_id() == old(registry).latest_id(),
            retargeted_by(
                *old(registry),
                *final(registry),
                self.id(),
                |t: AudioShape| AudioShape { volume, ..t },
            ),
    {
        match registry.get_shape(self.id) {
            Some(shape) => registry.retarget(self.id, AudioShape { volume, ..shape }),
            None => {},
        }
    }

    /// A new voice with the same target as this one, starting from silence.
    pub fn duplicate(&self, registry: &mut SynthRegistry, sample_rate: u64) -> (r: Option<
        AudioShapeProxy,
    >)
        requires
            old(registry).wf(),
            sample_rate > 0,
        ensures
            final(registry).wf(),
            keeps_voices(*old(registry), *final(registry)),
            r matches Some(p) ==> {
                &&& final(registry).voices() == old(registry).voices().push(
                    final(registry).voices().last(),
                )
                &&& p.id() == old(registry).latest_id() + 1
                &&& final(registry).latest_id() == p.id()
                &&& final(registry).voices().last().id == p.id()
                &&& !old(registry).has_id(p.id())
                &&& final(registry).voices().last().synth.volume() == 0
                &&& final(registry).voices().last().synth.is_active()
                &&& forall|i: int|
                    0 <= i < old(registry).voices().len() && old(registry).voices()[i].id
                        == self.id() ==> final(registry).voices().last().synth.target() == old(
                        registry,
                    ).voices()[i].synth.target()
                &&& !old(registry).has_id(self.id()) ==> final(registry).voices().last().synth.target()
                    == (AudioShape { waveform: crate::synth::Waveform::Sine, frequency: 0, volume: 0 })
            },
            r is None ==> final(registry).voices() == old(registry).voices(),
            r is None <==> old(registry).latest_id() == u64::MAX,
    {
        let shape = match registry.get_shape(self.id) {
            Some(shape) => shape,
            None => AudioShape::default(),
        };
        AudioShapeProxy::new(registry, shape, sample_rate)
    }

    /// Lets go of the voice: it ramps down to silence and is then removed.
    pub fn release(&self, registry: &mut SynthRegistry)
        requires
            old(registry).wf(),
        ensures
            final(registry).wf(),
            keeps_voices(*old(registry), *final(registry)),
            final(registry).voices().len() == old(registry).voices().len(),
            final(registry).latest_id() == old(registry).latest_id(),
            forall|i: int|
                0 <= i < old(registry).voices().len() ==> if old(registry).voices()[i].id == self.id() {
                    &&& (#[trigger] final(registry).voices()[i]).id == self.id()
                    &&& !final(registry).voices()[i].synth.is_active()
                    &&& final(registry).voices()[i].synth.target() == (AudioShape {
                        volume: 0,
                        ..old(registry).voices()[i].synth.target()
                    })
                    &&& final(registry).voices()[i].synth.volume() == old(
                        registry,
                    ).voices()[i].synth.volume()
                    &&& final(registry).voices()[i].synth.phase() == old(
                        registry,
                    ).voices()[i].synth.phase()
                } else {
                    final(registry).voices()[i] == old(registry).voices()[i]
                },
            old(registry).has_id(self.id()) ==> final(registry).has_id(self.id()) && final(registry).target_of(self.id()) == (AudioShape {
                volume: 0,
                ..old(registry).target_of(self.id())
            }),
    {
        registry.make_inactive(self.id);
        proof {
            if old(registry).has_id(self.id) {
                let i = choose|i: int|
                    0 <= i < old(registry).voices().len() && old(registry).voices()[i].id == self.id;
                old(registry).lemma_target_of(i);
                registry.lemma_target_of(i);
            }
        }
    }
}

/// Channels of a rendered file.
pub const WAV_CHANNELS: u16 = 1;

/// Sample rate of a rendered file.
pub const WAV_SAMPLE_RATE: u32 = 44100;

/// The most samples one session produces.
pub const MAX_TOTAL_SAMPLES: u64 = 1_099_511_627_776;

/// What moves the clock of a session.
#[derive(Debug, Clone, Copy, PartialEq, Eq, Structural)]
pub enum ClockSource {
    /// The clock is the number of samples produced so far, over the sample rate.
    Samples,
    /// The clock adds up the gaps between the playback timestamps that the
    /// device reports; a timestamp that goes back counts as no time.
    Timestamps,
}

/// What one call that produces audio hands back.
pub struct Pass {
    /// For each frame, what each voice contributes to it.
    pub frames: Vec<Vec<VoiceSample>>,
    /// The session completed during this call; this is reported once only.
    pub finished_now: bool,
}

/// One playback or render session: its clock, its live lines, and its voices.
pub struct Player {
    num_channels: u16,
    sample_rate: u64,
    clock_source: ClockSource,
    current_time_us: u64,
    last_timestamp_us: Option<u64>,
    programs: Vec<Instrument>,
    new_programs: Vec<Instrument>,
    registry: SynthRegistry,
    total_samples: u64,
    is_finished: bool,
}

/// The clock in microseconds after `total_samples` samples at `sample_rate`.
pub open spec fn sample_clock_us(total_samples: nat, sample_rate: nat) -> nat {
    (total_samples * 1_000_000) / sample_rate
}

/// The time that passes between two timestamps; none if the second is earlier.
pub open spec fn timestamp_delta(previous: Option<u64>, now: u64) -> nat {
    match previous {
        Some(p) => if now >= p {
            (now - p) as nat
        } else {
            0
        },
        None => 0,
    }
}

/// Every line is well formed.
pub open spec fn all_wf(lines: Seq<Instrument>) -> bool {
    forall|k: int| 0 <= k < lines.len() ==> (#[trigger] lines[k]).wf()
}

/// The lines that are not finished, in order.
pub open spec fn unfinished(lines: Seq<Instrument>) -> Seq<Instrument>
    decreases lines.len(),
{
    if lines.len() == 0 {
        lines
    } else if lines.last().finished() {
        unfinished(lines.drop_last())
    } else {
        unfinished(lines.drop_last()).push(lines.last())
    }
}

/// Each line of `after` is the line of `before` at the same place after one
/// poll at `now`.
pub open spec fn each_polled(before: Seq<Instrument>, after: Seq<Instrument>, now: u64) -> bool {
    &&& after.len() == before.len()
    &&& forall|i: int| 0 <= i < before.len() ==> #[trigger] polled_once(before[i], after[i], now)
}

/// `after` is `before` after one poll at `now`, whatever its voice's target was.
pub open spec fn polled_once(before: Instrument, after: Instrument, now: u64) -> bool {
    exists|t: AudioShape| after.polled_from(before, t, now)
}

/// `lines` are the lines that `before` starts when polled at `now`, its voice
/// having target `t`: one for each spawn that `settle` gives, in order.
pub open spec fn spawned_for(before: Instrument, t: AudioShape, lines: Seq<Instrument>, now: u64) -> bool {
    let sp = settle(
        before.line_state(t),
        before.steps(),
        start_after_poll(before, now),
        before.max_volume(),
        now,
    ).1;
    &&& lines.len() == sp.len()
    &&& forall|k: int| 0 <= k < sp.len() ==> spawn_matches(#[trigger] lines[k], sp[k], before)
}

/// `lines` are the lines that a poll of `before` at `now` starts.
pub open spec fn started_by(before: Instrument, lines: Seq<Instrument>, now: u64) -> bool {
    exists|t: AudioShape| #[trigger] spawned_for(before, t, lines, now)
}

/// No line of `lines` but the one at `i` holds voice `id`.
pub open spec fn sole_holder(lines: Seq<Instrument>, i: int, id: u64) -> bool {
    forall|j: int| 0 <= j < lines.len() && j != i ==> #[trigger] lines[j].voice_id() != Some(id)
}

/// No line of `lines` holds voice `id`.
pub open spec fn held_by_none(lines: Seq<Instrument>, id: u64) -> bool {
    forall|j: int| 0 <= j < lines.len() ==> #[trigger] lines[j].voice_id() != Some(id)
}

/// The target that a poll of `l` at `now` leaves on its voice, when that
/// voice had target `t`.
pub open spec fn polled_target(l: Instrument, t: AudioShape, now: u64) -> AudioShape {
    settle(l.line_state(t), l.steps(), start_after_poll(l, now), l.max_volume(), now).0.target
}

/// After a poll of `l` at `now`, its voice (if any) is in `reg` with the
/// target that the poll left on it.
pub open spec fn voice_left_by_poll(l: Instrument, reg: SynthRegistry, now: u64) -> bool {
    l.voice_id() matches Some(v) ==> reg.has_id(v) && exists|t: AudioShape|
        #[trigger] polled_target(l, t, now) == reg.target_of(v)
}

/// A poll of `p0` (giving `p`) leaves alone every voice of `reg0` that `p0`
/// does not hold: a voice it creates is newer than all of them.
proof fn lemma_poll_spares(
    reg0: SynthRegistry,
    reg1: SynthRegistry,
    reg2: SynthRegistry,
    p0: Instrument,
    p: Instrument,
    x: u64,
)
    requires
        reg0.wf(),
        keeps_voices(reg0, reg1),
        reg0.has_id(x),
        reg1.has_id(x),
        p0.voice_id() != Some(x),
        p0.voice_id() matches Some(v) ==> v > reg0.latest_id() || p.voice_id() == p0.voice_id(),
        p0.voice_id() is Some ==> p.voice_id() == p0.voice_id(),
        p0.voice_id() is None ==> fresh_voice(p, reg1, reg2),
        others_kept(reg1, reg2, p.voice_id()),
    ensures
        reg2.has_id(x),
        reg2.target_of(x) == reg1.target_of(x),
{
    let i = choose|i: int| 0 <= i < reg0.voices().len() && reg0.voices()[i].id == x;
    assert(x <= reg0.latest_id());
    assert(p.voice_id() != Some(x));
    assert(reg2.target_of(x) == reg1.target_of(x));
}

/// `after` is `before` after one pass that produced `frames`: the lines were
/// polled at `before`'s time, and each frame is what the polled voices give
/// that many samples on, before the finished voices were dropped.
#[verifier::opaque]
pub open spec fn is_pass(before: Player, after: Player, frames: Seq<Vec<VoiceSample>>) -> bool {
    &&& after.samples() == before.samples() + frames.len()
    &&& after.new_programs().len() == 0
    &&& all_suspended(after.programs(), before.now())
    &&& exists|polled: SynthRegistry, played: Seq<crate::synth_registry::Voice>|
        #![trigger keeps_voices(before.registry(), polled), advanced(polled.voices(), played, frames.len() as nat)]
        {
            &&& polled.wf()
            &&& keeps_voices(before.registry(), polled)
            &&& forall|k: int|
                0 <= k < frames.len() ==> (#[trigger] frames[k])@ == frame_after(
                    polled.voices(),
                    k as nat,
                )
            &&& advanced(polled.voices(), played, frames.len() as nat)
            &&& after.registry().voices() == still_playing(played)
        }
}

/// One more pass extends a chain of passes.
proof fn lemma_chain_pass(
    states: Seq<Player>,
    cuts: Seq<int>,
    frames: Seq<Vec<VoiceSample>>,
    got: Seq<Vec<VoiceSample>>,
    next: Player,
    done: int,
    st: Seq<Player>,
    cu: Seq<int>,
    fr: Seq<Vec<VoiceSample>>,
)
    requires
        states.len() == cuts.len() >= 1,
        cuts.last() == done,
        frames.len() == done,
        forall|c: int| 0 <= c < cuts.len() ==> 0 <= #[trigger] cuts[c] <= done,
        forall|c: int| 0 <= c < cuts.len() - 1 ==> #[trigger] cuts[c] <= cuts[c + 1],
        forall|c: int|
            0 <= c < states.len() - 1 ==> is_pass(
                #[trigger] states[c],
                states[c + 1],
                frames.subrange(cuts[c], cuts[c + 1]),
            ),
        is_pass(states.last(), next, got),
        st == states.push(next),
        cu == cuts.push(done + got.len()),
        fr == frames + got,
    ensures
        forall|c: int| 0 <= c < cu.len() - 1 ==> #[trigger] cu[c] <= cu[c + 1],
        forall|c: int| 0 <= c < cu.len() ==> 0 <= #[trigger] cu[c] <= done + got.len(),
        forall|c: int|
            0 <= c < st.len() - 1 ==> is_pass(
                #[trigger] st[c],
                st[c + 1],
                fr.subrange(cu[c], cu[c + 1]),
            ),
{
    assert forall|c: int| 0 <= c < cu.len() - 1 implies #[trigger] cu[c] <= cu[c + 1] by {
        if c < cuts.len() - 1 {
            assert(cu[c] == cuts[c] && cu[c + 1] == cuts[c + 1]);
        } else {
            assert(cu[c] == done);
        }
    }
    assert forall|c: int| 0 <= c < cu.len() implies 0 <= #[trigger] cu[c] <= done + got.len() by {
        if c < cuts.len() {
            assert(cu[c] == cuts[c]);
        }
    }
    assert forall|c: int| 0 <= c < st.len() - 1 implies is_pass(
        #[trigger] st[c],
        st[c + 1],
        fr.subrange(cu[c], cu[c + 1]),
    ) by {
        if c < states.len() - 1 {
            assert(st[c] == states[c] && st[c + 1] == states[c + 1]);
            assert(cu[c] == cuts[c] && cu[c + 1] == cuts[c + 1]);
            assert(cuts[c + 1] <= done);
            let x = frames.subrange(cuts[c], cuts[c + 1]);
            assert(is_pass(states[c], states[c + 1], x));
            assert(fr.subrange(cu[c], cu[c + 1]) =~= x);
        } else {
            assert(c == states.len() - 1);
            assert(st[c] == states.last());
            assert(st[c + 1] == next);
            assert(cu[c] == done);
            assert(cu[c + 1] == done + got.len());
            assert(fr.subrange(cu[c], cu[c + 1]) =~= got);
        }
    }
}

/// Every line is unfinished and waits for a time later than `now`.
pub open spec fn all_suspended(lines: Seq<Instrument>, now: u64) -> bool {
    forall|k: int|
        0 <= k < lines.len() ==> !(#[trigger] lines[k]).finished() && lines[k].wake_at() > now
}

impl Player {
    pub closed spec fn num_channels(self) -> nat {
        self.num_channels as nat
    }

    pub closed spec fn sample_rate(self) -> nat {
        self.sample_rate as nat
    }

    pub closed spec fn clock_source(self) -> ClockSource {
        self.clock_source
    }

    pub closed spec fn now(self) -> u64 {
        self.current_time_us
    }

    pub closed spec fn last_timestamp(self) -> Option<u64> {
        self.last_timestamp_us
    }

    pub closed spec fn programs(self) -> Seq<Instrument> {
        self.programs@
    }

    pub closed spec fn new_programs(self) -> Seq<Instrument> {
        self.new_programs@
    }

    pub closed spec fn registry(self) -> SynthRegistry {
        self.registry
    }

    pub closed spec fn samples(self) -> nat {
        self.total_samples as nat
    }

    pub closed spec fn finished(self) -> bool {
        self.is_finished
    }

    /// The session as a device buffer starts filling it: with its clock set
    /// back to zero if it has produced nothing yet.
    pub closed spec fn at_buffer_start(self) -> Player {
        if self.total_samples == 0 {
            Player { current_time_us: 0, ..self }
        } else {
            self
        }
    }

    /// Setting the clock back touches nothing but the clock.
    pub proof fn lemma_at_buffer_start(self)
        ensures
            self.samples() == 0 ==> self.at_buffer_start().now() == 0,
            self.samples() != 0 ==> self.at_buffer_start() == self,
            self.at_buffer_start().programs() == self.programs(),
            self.at_buffer_start().new_programs() == self.new_programs(),
            self.at_buffer_start().registry() == self.registry(),
            self.at_buffer_start().samples() == self.samples(),
            self.at_buffer_start().finished() == self.finished(),
            self.at_buffer_start().clock_source() == self.clock_source(),
    {
    }

    pub open spec fn wf(self) -> bool {
        &&& self.sample_rate() > 0
        &&& self.num_channels() > 0
        &&& self.registry().wf()
        &&& all_wf(self.programs())
        &&& all_wf(self.new_programs())
        &&& self.samples() == self.registry().total_samples()
        &&& self.samples() <= MAX_TOTAL_SAMPLES
        &&& self.clock_source() == ClockSource::Samples ==> self.now() == sample_clock_us(
            self.samples(),
            self.sample_rate(),
        )
    }

    pub fn new(num_channels: u16, sample_rate: u64, clock_source: ClockSource) -> (r: Player)
        requires
            num_channels > 0,
            sample_rate > 0,
        ensures
            r.wf(),
            r.num_channels() == num_channels,
            r.sample_rate() == sample_rate,
            r.clock_source() == clock_source,
            r.now() == 0,
            r.samples() == 0,
            r.programs().len() == 0,
            r.new_programs().len() == 0,
            r.registry().voices().len() == 0,
            !r.finished(),
    {
        Player {
            num_channels,
            sample_rate,
            clock_source,
            current_time_us: 0,
            last_timestamp_us: None,
            programs: Vec::new(),
            new_programs: Vec::new(),
            registry: SynthRegistry::new(),
            total_samples: 0,
            is_finished: false,
        }
    }

    /// Hands a line to the session; it joins at the next pass.
    pub fn start_program(&mut self, program: Instrument)
        requires
            old(self).wf(),
            program.wf(),
        ensures
            final(self).wf(),
            final(self).new_programs() == old(self).new_programs().push(program),
            final(self).programs() == old(self).programs(),
            final(self).now() == old(self).now(),
            final(self).finished() == old(self).finished(),
    {
        self.new_programs.push(program);
    }

    /// Moves the lines waiting to join, in the order they came, behind the live ones.
    fn process_new_programs(&mut self)
        requires
            old(self).wf(),
        ensures
            final(self).wf(),
            final(self).programs() == old(self).programs() + old(self).new_programs(),
            final(self).new_programs().len() == 0,
            final(self).registry() == old(self).registry(),
            final(self).clock_source() == old(self).clock_source(),
            final(self).last_timestamp() == old(self).last_timestamp(),
            final(self).sample_rate() == old(self).sample_rate(),
            final(self).num_channels() == old(self).num_channels(),
            final(self).now() == old(self).now(),
            final(self).samples() == old(self).samples(),
            final(self).finished() == old(self).finished(),
    {
        self.programs.append(&mut self.new_programs);
        proof {
            assert forall|k: int| 0 <= k < self.programs().len() implies (
            #[trigger] self.programs()[k]).wf() by {
                if k < old(self).programs().len() {
                    assert(self.programs()[k] == old(self).programs()[k]);
                } else {
                    assert(self.programs()[k] == old(self).new_programs()[k
                        - old(self).programs().len()]);
                }
            }
        }
    }

    /// One poll of every live line at the current time, in the order they
    /// joined. A line that finishes leaves; a line started by a chord joins at
    /// once and is polled in the same pass.
    #[verifier::rlimit(80)]
    pub fn execute_programs(&mut self)
        requires
            old(self).wf(),
        ensures
            final(self).wf(),
            all_suspended(final(self).programs(), old(self).now()),
            final(self).new_programs().len() == 0,
            keeps_voices(old(self).registry(), final(self).registry()),
            final(self).now() == old(self).now(),
            final(self).samples() == old(self).samples(),
            final(self).finished() == old(self).finished(),
            final(self).clock_source() == old(self).clock_source(),
            final(self).last_timestamp() == old(self).last_timestamp(),
            final(self).sample_rate() == old(self).sample_rate(),
            final(self).num_channels() == old(self).num_channels(),
            exists|
                first: Seq<Instrument>,
                groups: Seq<Seq<Instrument>>,
                born: Seq<Instrument>,
                second: Seq<Instrument>,
            |
                #![trigger each_polled(born, second, old(self).now()), unfinished(first + second), groups.flatten()]
                {
                    &&& each_polled(old(self).programs() + old(self).new_programs(), first, old(self).now())
                    &&& groups.len() == first.len()
                    &&& forall|i: int|
                        0 <= i < groups.len() ==> #[trigger] started_by(
                            (old(self).programs() + old(self).new_programs())[i],
                            groups[i],
                            old(self).now(),
                        )
                    &&& born == groups.flatten()
                    &&& fresh_in_order(born, 0, old(self).registry(), final(self).registry())
                    &&& forall|j: int|
                        0 <= j < born.len() ==> #[trigger] voice_left_by_poll(
                            born[j],
                            final(self).registry(),
                            old(self).now(),
                        )
                    &&& each_polled(born, second, old(self).now())
                    &&& forall|j: int| 0 <= j < born.len() ==> (#[trigger] born[j]).is_leaf() && born[j].started()
                    &&& final(self).programs() == unfinished(first + second)
                },
            forall|i: int, id: u64|
                0 <= i < old(self).programs().len() + old(self).new_programs().len() && (old(
                    self,
                ).programs() + old(self).new_programs())[i].voice_id() == Some(id) && old(
                    self,
                ).registry().has_id(id) && sole_holder(
                    old(self).programs() + old(self).new_programs(),
                    i,
                    id,
                ) ==> final(self).registry().has_id(id) && final(self).registry().target_of(id)
                    == #[trigger] polled_target(
                    (old(self).programs() + old(self).new_programs())[i],
                    old(self).registry().target_of(id),
                    old(self).now(),
                ),
            forall|x: u64|
                old(self).registry().has_id(x) && held_by_none(
                    old(self).programs() + old(self).new_programs(),
                    x,
                ) ==> final(self).registry().has_id(x) && #[trigger] final(self).registry().target_of(x)
                    == old(self).registry().target_of(x),
    {
        self.process_new_programs();
        let ghost admitted = self.programs();
        let now = self.current_time_us;
        let ghost reg0 = self.registry;
        let mut current: Vec<Instrument> = Vec::new();
        std::mem::swap(&mut current, &mut self.programs);
        let mut spawned: Vec<Instrument> = Vec::new();
        let mut kept: Vec<Instrument> = Vec::new();
        let ghost mut first: Seq<Instrument> = Seq::empty();
        let ghost mut groups: Seq<Seq<Instrument>> = Seq::empty();
        proof {
            assert(current@ == admitted.subrange(0, admitted.len() as int));
        }
        while current.len() > 0
            invariant
                first.len() <= admitted.len(),
                current@ == admitted.subrange(first.len() as int, admitted.len() as int),
                each_polled(admitted.subrange(0, first.len() as int), first, now),
                kept@ == unfinished(first),
                groups.len() == first.len(),
                forall|i: int| 0 <= i < groups.len() ==> #[trigger] started_by(admitted[i], groups[i], now),
                spawned@ == groups.flatten(),
                now == old(self).now(),
                self.wf(),
                self.registry.total_samples() == reg0.total_samples(),
                keeps_voices(reg0, self.registry),
                self.current_time_us == now,
                self.now() == old(self).now(),
                self.samples() == old(self).samples(),
                self.finished() == old(self).finished(),
                self.clock_source() == old(self).clock_source(),
                self.last_timestamp() == old(self).last_timestamp(),
                self.sample_rate() == old(self).sample_rate(),
                self.num_channels() == old(self).num_channels(),
                self.new_programs().len() == 0,
                all_wf(current@),
                all_wf(spawned@),
                forall|k: int|
                    0 <= k < spawned@.len() ==> (#[trigger] spawned@[k]).is_leaf() && spawned@[k].started(),
                all_wf(kept@),
                all_suspended(kept@, now),
                forall|x: u64|
                    reg0.has_id(x) && held_by_none(admitted.subrange(0, first.len() as int), x)
                        ==> self.registry.has_id(x) && #[trigger] self.registry.target_of(x)
                        == reg0.target_of(x),
                forall|i: int, id: u64|
                    0 <= i < first.len() && admitted[i].voice_id() == Some(id) && reg0.has_id(id)
                        && sole_holder(admitted, i, id) ==> self.registry.has_id(id)
                        && self.registry.target_of(id) == #[trigger] polled_target(
                        admitted[i],
                        reg0.target_of(id),
                        now,
                    ),
                forall|k: int|
                    0 <= k < spawned@.len() ==> ((#[trigger] spawned@[k]).voice_id() matches Some(v)
                        ==> v > reg0.latest_id()),
                reg0.wf(),
                reg0 == old(self).registry(),
                fresh_in_order(spawned@, 0, reg0, self.registry),
            decreases current@.len(),
        {
            let ghost cur0 = current@;
            let mut p = current.remove(0);
            let ghost reg1 = self.registry;
            let ghost sp1 = spawned@;
            let ghost p0 = p;
            let done = p.poll(now, &mut self.registry, self.sample_rate, &mut spawned);
            proof {
                let m = first.len() as int;
                lemma_fresh_extend(sp1, spawned@, 0, reg0, reg1, self.registry);
                assert(admitted[m] == p0) by {
                    assert(cur0 == admitted.subrange(m, admitted.len() as int));
                }
                assert forall|x: u64|
                    reg0.has_id(x) && held_by_none(admitted.subrange(0, m + 1), x) implies self.registry.has_id(x)
                        && #[trigger] self.registry.target_of(x) == reg0.target_of(x) by {
                    assert(held_by_none(admitted.subrange(0, m), x)) by {
                        assert forall|j: int| 0 <= j < m implies #[trigger] admitted.subrange(0, m)[j].voice_id()
                            != Some(x) by {
                            assert(admitted.subrange(0, m)[j] == admitted.subrange(0, m + 1)[j]);
                        }
                    }
                    assert(admitted.subrange(0, m + 1)[m] == p0);
                    lemma_poll_spares(reg0, reg1, self.registry, p0, p, x);
                }
                assert forall|i: int, id: u64|
                    0 <= i < m + 1 && admitted[i].voice_id() == Some(id) && reg0.has_id(id)
                        && sole_holder(admitted, i, id) implies self.registry.has_id(id)
                        && self.registry.target_of(id) == #[trigger] polled_target(
                        admitted[i],
                        reg0.target_of(id),
                        now,
                    ) by {
                    if i < m {
                        assert(admitted[m].voice_id() != Some(id));
                        assert(reg1.target_of(id) == polled_target(admitted[i], reg0.target_of(id), now));
                        lemma_poll_spares(reg0, reg1, self.registry, p0, p, id);
                    } else {
                        assert(held_by_none(admitted.subrange(0, m), id)) by {
                            assert forall|j: int| 0 <= j < m implies #[trigger] admitted.subrange(0, m)[j].voice_id()
                                != Some(id) by {
                                assert(admitted.subrange(0, m)[j] == admitted[j]);
                            }
                        }
                        assert(reg1.target_of(id) == reg0.target_of(id));
                        assert(entry_target(p0, reg1) == reg0.target_of(id));
                    }
                }
                assert forall|k: int|
                    0 <= k < spawned@.len() implies ((#[trigger] spawned@[k]).voice_id() matches Some(v)
                        ==> v > reg0.latest_id()) by {
                    if k < sp1.len() {
                        assert(spawned@[k] == sp1[k]);
                    }
                }
                let group = spawned@.subrange(sp1.len() as int, spawned@.len() as int);
                let t = entry_target(p0, reg1);
                assert(spawned_for(p0, t, group, now)) by {
                    let sp = settle(
                        p0.line_state(t),
                        p0.steps(),
                        start_after_poll(p0, now),
                        p0.max_volume(),
                        now,
                    ).1;
                    assert forall|k: int| 0 <= k < sp.len() implies spawn_matches(
                        #[trigger] group[k],
                        sp[k],
                        p0,
                    ) by {
                        assert(group[k] == spawned@[sp1.len() + k]);
                    }
                }
                let groups0 = groups;
                groups = groups.push(group);
                groups0.lemma_flatten_push(group);
                assert(spawned@ =~= sp1 + group);
                let first0 = first;
                first = first.push(p);
                assert(current@ =~= admitted.subrange(first.len() as int, admitted.len() as int));
                assert(admitted[first0.len() as int] == cur0[0]);
                assert forall|i: int| 0 <= i < first.len() implies #[trigger] polled_once(admitted.subrange(0, first.len() as int)[i], first[i], now) by {
                    if i < first0.len() {
                        assert(first[i] == first0[i]);
                        assert(admitted.subrange(0, first.len() as int)[i] == admitted.subrange(0, first0.len() as int)[i]);
                    } else {
                        assert(first[i].polled_from(p0, entry_target(p0, reg1), now));
                    }
                }
                assert(first.drop_last() == first0);
                assert forall|i: int| 0 <= i < groups.len() implies #[trigger] started_by(
                    admitted[i],
                    groups[i],
                    now,
                ) by {
                    if i < groups0.len() {
                        assert(groups[i] == groups0[i]);
                    } else {
                        assert(admitted[i] == p0);
                    }
                }
                assert forall|k: int| 0 <= k < spawned@.len() implies (#[trigger] spawned@[k]).wf()
                    && spawned@[k].is_leaf() && spawned@[k].started() by {
                    if k < sp1.len() {
                        assert(spawned@[k] == sp1[k]);
                    }
                }
                assert forall|k: int| 0 <= k < current@.len() implies (#[trigger] current@[k]).wf() by {
                    assert(current@[k] == cur0[k + 1]);
                }
                assert forall|i: int| 0 <= i < reg0.voices().len() implies (
                #[trigger] self.registry.voices()[i]).id == reg0.voices()[i].id by {
                    assert(reg1.voices()[i].id == reg0.voices()[i].id);
                }
            }
            if !done {
                kept.push(p);
            }
        }
        let ghost born = spawned@;
        let ghost mut second: Seq<Instrument> = Seq::empty();
        proof {
            assert(admitted.subrange(0, first.len() as int) == admitted);
            assert(spawned@ == born.subrange(0, born.len() as int));
            assert(first + second =~= first);
        }
        while spawned.len() > 0
            invariant
                each_polled(admitted, first, now),
                second.len() <= born.len(),
                spawned@ == born.subrange(second.len() as int, born.len() as int),
                forall|j: int| 0 <= j < born.len() ==> (#[trigger] born[j]).is_leaf() && born[j].started(),
                each_polled(born.subrange(0, second.len() as int), second, now),
                kept@ == unfinished(first + second),
                now == old(self).now(),
                admitted == old(self).programs() + old(self).new_programs(),
                self.wf(),
                self.registry.total_samples() == reg0.total_samples(),
                keeps_voices(reg0, self.registry),
                self.current_time_us == now,
                self.now() == old(self).now(),
                self.samples() == old(self).samples(),
                self.finished() == old(self).finished(),
                self.clock_source() == old(self).clock_source(),
                self.last_timestamp() == old(self).last_timestamp(),
                self.sample_rate() == old(self).sample_rate(),
                self.num_channels() == old(self).num_channels(),
                self.new_programs().len() == 0,
                all_wf(spawned@),
                forall|k: int| 0 <= k < spawned@.len() ==> (#[trigger] spawned@[k]).is_leaf(),
                all_wf(kept@),
                all_suspended(kept@, now),
                forall|x: u64|
                    reg0.has_id(x) && held_by_none(admitted, x)
                        ==> self.registry.has_id(x) && #[trigger] self.registry.target_of(x)
                        == reg0.target_of(x),
                forall|i: int, id: u64|
                    0 <= i < admitted.len() && admitted[i].voice_id() == Some(id) && reg0.has_id(id)
                        && sole_holder(admitted, i, id) ==> self.registry.has_id(id)
                        && self.registry.target_of(id) == #[trigger] polled_target(
                        admitted[i],
                        reg0.target_of(id),
                        now,
                    ),
                forall|k: int|
                    0 <= k < spawned@.len() ==> ((#[trigger] spawned@[k]).voice_id() matches Some(v)
                        ==> v > reg0.latest_id()),
                reg0.wf(),
                reg0 == old(self).registry(),
                fresh_in_order(born, 0, reg0, self.registry),
                forall|j: int|
                    0 <= j < second.len() ==> #[trigger] voice_left_by_poll(born[j], self.registry, now),
            decreases spawned@.len(),
        {
            let ghost sp0 = spawned@;
            let mut p = spawned.remove(0);
            let ghost reg1 = self.registry;
            let ghost rest = spawned@;
            let ghost p0 = p;
            let done = p.poll(now, &mut self.registry, self.sample_rate, &mut spawned);
            proof {
                assert(spawned@ == rest);
                assert(p0 == sp0[0]);
                let m2 = second.len() as int;
                assert(born[m2] == p0);
                lemma_fresh_extend(born, born, 0, reg0, reg1, self.registry);
                assert forall|j: int| 0 <= j < m2 + 1 implies #[trigger] voice_left_by_poll(
                    born[j],
                    self.registry,
                    now,
                ) by {
                    if j < m2 {
                        assert(voice_left_by_poll(born[j], reg1, now));
                        if born[j].voice_id() is Some {
                            let v = born[j].voice_id().unwrap();
                            if p0.voice_id() is Some {
                                assert(p0.voice_id().unwrap() != v);
                            }
                            let t = choose|t: AudioShape|
                                #[trigger] polled_target(born[j], t, now) == reg1.target_of(v);
                            assert(self.registry.target_of(v) == reg1.target_of(v));
                            assert(polled_target(born[j], t, now) == self.registry.target_of(v));
                        }
                    } else {
                        if p0.voice_id() is Some {
                            let v = p0.voice_id().unwrap();
                            assert(reg1.has_id(v));
                            let t = entry_target(p0, reg1);
                            assert(polled_target(p0, t, now) == self.registry.target_of(v));
                        }
                    }
                }
                assert forall|x: u64|
                    reg0.has_id(x) && held_by_none(admitted, x) implies self.registry.has_id(x)
                        && #[trigger] self.registry.target_of(x) == reg0.target_of(x) by {
                    lemma_poll_spares(reg0, reg1, self.registry, p0, p, x);
                }
                assert forall|i: int, id: u64|
                    0 <= i < admitted.len() && admitted[i].voice_id() == Some(id) && reg0.has_id(id)
                        && sole_holder(admitted, i, id) implies self.registry.has_id(id)
                        && self.registry.target_of(id) == #[trigger] polled_target(
                        admitted[i],
                        reg0.target_of(id),
                        now,
                    ) by {
                    assert(reg1.target_of(id) == polled_target(admitted[i], reg0.target_of(id), now));
                    lemma_poll_spares(reg0, reg1, self.registry, p0, p, id);
                }
                assert forall|k: int|
                    0 <= k < spawned@.len() implies ((#[trigger] spawned@[k]).voice_id() matches Some(v)
                        ==> v > reg0.latest_id()) by {
                    assert(spawned@[k] == sp0[k + 1]);
                }
                let second0 = second;
                second = second.push(p);
                assert(spawned@ =~= born.subrange(second.len() as int, born.len() as int));
                assert(born[second0.len() as int] == sp0[0]);
                assert forall|i: int| 0 <= i < second.len() implies #[trigger] polled_once(born.subrange(0, second.len() as int)[i], second[i], now) by {
                    if i < second0.len() {
                        assert(second[i] == second0[i]);
                        assert(born.subrange(0, second.len() as int)[i] == born.subrange(0, second0.len() as int)[i]);
                    } else {
                        assert(second[i].polled_from(p0, entry_target(p0, reg1), now));
                    }
                }
                assert((first + second).drop_last() == first + second0);
                assert((first + second).last() == p);
                assert forall|k: int| 0 <= k < spawned@.len() implies (#[trigger] spawned@[k]).wf()
                    && spawned@[k].is_leaf() by {
                    assert(rest[k] == sp0[k + 1]);
                }
                assert forall|i: int| 0 <= i < reg0.voices().len() implies (
                #[trigger] self.registry.voices()[i]).id == reg0.voices()[i].id by {
                    assert(reg1.voices()[i].id == reg0.voices()[i].id);
                }
            }
            if !done {
                kept.push(p);
            }
        }
        proof {
            assert(born.subrange(0, second.len() as int) == born);
        }
        self.programs = kept;
    }

    /// Drops the voices that have died away, and reports completion once:
    /// when no line and no voice is left.
    pub fn check_finished(&mut self) -> (signal: bool)
        requires
            old(self).wf(),
        ensures
            final(self).wf(),
            final(self).registry().voices() == still_playing(old(self).registry().voices()),
            signal == (!old(self).finished() && old(self).programs().len() == 0 && still_playing(
                old(self).registry().voices(),
            ).len() == 0),
            final(self).finished() == (old(self).finished() || signal),
            old(self).finished() ==> !signal,
            final(self).programs() == old(self).programs(),
            final(self).new_programs() == old(self).new_programs(),
            final(self).now() == old(self).now(),
            final(self).samples() == old(self).samples(),
            final(self).clock_source() == old(self).clock_source(),
            final(self).sample_rate() == old(self).sample_rate(),
            final(self).num_channels() == old(self).num_channels(),
            final(self).last_timestamp() == old(self).last_timestamp(),
    {
        self.registry.remove_finished_synths();
        if self.registry.is_empty() && self.programs.len() == 0 && !self.is_finished {
            self.is_finished = true;
            true
        } else {
            false
        }
    }

    /// Resets the clock at the start of a session.
    fn reset_clock(&mut self)
        ensures
            final(self).now() == 0,
            *final(self) == (Player { current_time_us: 0, ..*old(self) }),
    {
        self.current_time_us = 0;
    }

    /// Counts `amount` more samples; with the sample clock, the clock follows.
    fn increment_total_samples(&mut self, amount: u64)
        requires
            old(self).sample_rate() > 0,
            old(self).samples() + amount <= MAX_TOTAL_SAMPLES,
        ensures
            final(self).samples() == old(self).samples() + amount,
            old(self).clock_source() == ClockSource::Samples ==> final(self).now()
                == sample_clock_us(final(self).samples(), old(self).sample_rate()),
            old(self).clock_source() == ClockSource::Timestamps ==> final(self).now() == old(
                self,
            ).now(),
            *final(self) == (Player {
                total_samples: final(self).total_samples,
                current_time_us: final(self).current_time_us,
                ..*old(self)
            }),
    {
        self.total_samples = self.total_samples + amount;
        if self.clock_source == ClockSource::Samples {
            let us: u128 = (self.total_samples as u128 * 1_000_000) / self.sample_rate as u128;
            assert(us <= self.total_samples * 1_000_000) by (nonlinear_arith)
                requires
                    us == (self.total_samples * 1_000_000) as int / (self.sample_rate as int),
                    self.sample_rate >= 1,
            ;
            self.current_time_us = us as u64;
        }
    }

    /// Takes the device's playback timestamp, in microseconds. With the
    /// timestamp clock, the clock moves on by the time since the previous one.
    pub fn advance_to_timestamp(&mut self, timestamp_us: u64)
        requires
            old(self).wf(),
        ensures
            final(self).wf(),
            final(self).last_timestamp() == Some(timestamp_us),
            old(self).clock_source() == ClockSource::Timestamps ==> final(self).now() == (if old(
                self,
            ).now() + timestamp_delta(old(self).last_timestamp(), timestamp_us) > u64::MAX {
                u64::MAX as int
            } else {
                old(self).now() + timestamp_delta(old(self).last_timestamp(), timestamp_us)
            }),
            old(self).clock_source() == ClockSource::Samples ==> final(self).now() == old(self).now(),
            final(self).programs() == old(self).programs(),
            final(self).new_programs() == old(self).new_programs(),
            final(self).registry() == old(self).registry(),
            final(self).samples() == old(self).samples(),
            final(self).finished() == old(self).finished(),
            final(self).clock_source() == old(self).clock_source(),
    {
        let delta: u64 = match self.last_timestamp_us {
            Some(previous) => if timestamp_us >= previous {
                timestamp_us - previous
            } else {
                0
            },
            None => 0,
        };
        self.last_timestamp_us = Some(timestamp_us);
        if self.clock_source == ClockSource::Timestamps {
            self.current_time_us = self.current_time_us.saturating_add(delta);
        }
    }

    /// Frames produced per pass: half a millisecond of audio.
    pub fn samples_per_program_loop(&self) -> (r: u64)
        ensures
            r == (self.sample_rate() / 1000) / 2,
    {
        let samples_per_ms = self.sample_rate / 1000;
        samples_per_ms / 2
    }

    /// One pass: polls the lines at the current time, produces `num_frames`
    /// frames, checks for completion, and moves the sample count (and the
    /// sample clock) on by `num_frames`.
    pub fn generate_samples(&mut self, num_frames: usize) -> (r: Pass)
        requires
            old(self).wf(),
            old(self).samples() + num_frames <= MAX_TOTAL_SAMPLES,
        ensures
            final(self).wf(),
            r.frames@.len() == num_frames,
            final(self).samples() == old(self).samples() + num_frames,
            all_suspended(final(self).programs(), old(self).now()),
            final(self).new_programs().len() == 0,
            r.finished_now ==> !old(self).finished() && final(self).finished()
                && final(self).programs().len() == 0 && final(self).registry().voices().len() == 0,
            r.finished_now == (!old(self).finished() && final(self).programs().len() == 0
                && final(self).registry().voices().len() == 0),
            final(self).now() >= old(self).now(),
            old(self).finished() ==> !r.finished_now && final(self).finished(),
            !old(self).finished() && !r.finished_now ==> !final(self).finished(),
            old(self).clock_source() == ClockSource::Samples ==> final(self).now()
                == sample_clock_us(final(self).samples(), old(self).sample_rate()),
            old(self).clock_source() == ClockSource::Timestamps ==> final(self).now() == old(
                self,
            ).now(),
            final(self).clock_source() == old(self).clock_source(),
            final(self).sample_rate() == old(self).sample_rate(),
            exists|polled: SynthRegistry, played: Seq<crate::synth_registry::Voice>|
                #![trigger keeps_voices(old(self).registry(), polled), advanced(polled.voices(), played, num_frames as nat)]
                {
                    &&& polled.wf()
                    &&& keeps_voices(old(self).registry(), polled)
                    &&& forall|k: int|
                        0 <= k < num_frames ==> (#[trigger] r.frames@[k])@ == frame_after(
                            polled.voices(),
                            k as nat,
                        )
                    &&& advanced(polled.voices(), played, num_frames as nat)
                    &&& final(self).registry().voices() == still_playing(played)
                },
            is_pass(*old(self), *final(self), r.frames@),
    {
        self.execute_programs();
        let ghost after_polls = self.programs();
        let ghost polled = self.registry;
        let mut frames: Vec<Vec<VoiceSample>> = Vec::new();
        let mut k: usize = 0;
        while k < num_frames
            invariant
                self.registry.wf(),
                self.registry.total_samples() == old(self).samples() + k,
                old(self).samples() + num_frames <= MAX_TOTAL_SAMPLES,
                k <= num_frames,
                frames@.len() == k,
                self.programs() == after_polls,
                self.new_programs().len() == 0,
                all_wf(self.programs()),
                self.total_samples == old(self).samples(),
                self.sample_rate() == old(self).sample_rate(),
                self.num_channels() == old(self).num_channels(),
                self.finished() == old(self).finished(),
                self.now() == old(self).now(),
                self.clock_source() == old(self).clock_source(),
                all_suspended(self.programs(), old(self).now()),
                polled.wf(),
                keeps_voices(old(self).registry(), polled),
                self.registry.voices().len() == polled.voices().len(),
                advanced(polled.voices(), self.registry.voices(), k as nat),
                forall|j: int|
                    0 <= j < k ==> (#[trigger] frames@[j])@ == frame_after(polled.voices(), j as nat),
            decreases num_frames - k,
        {
            let ghost before = self.registry;
            let ghost frames0 = frames@;
            let frame = self.registry.next_sample();
            frames.push(frame);
            proof {
                assert forall|i: int| 0 <= i < frame@.len() implies frame@[i]
                    == #[trigger] frame_after(polled.voices(), k as nat)[i] by {
                    let v = before.voices()[i];
                    let p = polled.voices()[i];
                    let w = self.registry.voices()[i];
                    assert(v.synth.phase() == phase_after(p.synth.phase(), p.synth.delta(), k as nat));
                    assert(v.synth.volume() == volume_after(
                        p.synth.volume(),
                        p.synth.target().volume,
                        k as nat,
                    ));
                    assert(frame@[i] == (VoiceSample {
                        waveform: v.synth.target().waveform,
                        phase: v.synth.phase(),
                        amplitude: v.synth.volume(),
                    }));
                    assert(frame_after(polled.voices(), k as nat)[i] == crate::synth_registry::sample_after(
                        p,
                        k as nat,
                    ));
                }
                assert(frame@ =~= frame_after(polled.voices(), k as nat));
                assert forall|i: int| 0 <= i < polled.voices().len() implies {
                    let a = #[trigger] self.registry.voices()[i];
                    let b = polled.voices()[i];
                    &&& a.id == b.id
                    &&& a.synth.phase() == phase_after(b.synth.phase(), b.synth.delta(), (k + 1) as nat)
                    &&& a.synth.volume() == volume_after(
                        b.synth.volume(),
                        b.synth.target().volume,
                        (k + 1) as nat,
                    )
                    &&& a.synth.target() == b.synth.target()
                    &&& a.synth.is_active() == b.synth.is_active()
                    &&& a.synth.delta() == b.synth.delta()
                    &&& a.synth.sample_rate() == b.synth.sample_rate()
                } by {
                    assert(before.voices()[i] == before.voices()[i]);
                }
                assert forall|j: int| 0 <= j < k + 1 implies (#[trigger] frames@[j])@ == frame_after(
                    polled.voices(),
                    j as nat,
                ) by {
                    if j < k {
                        assert(frames@[j] == frames0[j]);
                    }
                }
            }
            k = k + 1;
        }
        let ghost played = self.registry.voices();
        self.increment_total_samples(num_frames as u64);
        proof {
            if self.clock_source == ClockSource::Samples {
                vstd::arithmetic::div_mod::lemma_div_is_ordered(
                    (old(self).samples() * 1_000_000) as int,
                    (self.samples() * 1_000_000) as int,
                    self.sample_rate() as int,
                );
            }
        }
        let signal = self.check_finished();
        proof {
            assert(advanced(polled.voices(), played, num_frames as nat));
            reveal(is_pass);
        }
        Pass { frames, finished_now: signal }
    }
    /// Frames in one pass.
    pub open spec fn pass_frames_spec(self) -> nat {
        if (self.sample_rate() / 1000) / 2 == 0 {
            1
        } else {
            (self.sample_rate() / 1000) / 2
        }
    }

    /// Frames in one pass; at least one, so that every pass moves time on.
    pub fn pass_frames(&self) -> (r: u64)
        ensures
            r == self.pass_frames_spec(),
            r >= 1,
    {
        let n = self.samples_per_program_loop();
        if n == 0 {
            1
        } else {
            n
        }
    }

    /// Fills a device buffer of `buffer_frames` frames: one pass for each
    /// stretch of `pass_frames` frames, the last one perhaps shorter. The clock
    /// is reset when the first buffer of the session is filled.
    #[verifier::rlimit(100)]
    pub fn write_audio(&mut self, buffer_frames: usize) -> (r: Pass)
        requires
            old(self).wf(),
            old(self).samples() + buffer_frames <= MAX_TOTAL_SAMPLES,
        ensures
            final(self).wf(),
            r.frames@.len() == buffer_frames,
            final(self).samples() == old(self).samples() + buffer_frames,
            r.finished_now ==> !old(self).finished() && final(self).finished(),
            old(self).finished() ==> !r.finished_now && final(self).finished(),
            !old(self).finished() && !r.finished_now ==> !final(self).finished(),
            final(self).clock_source() == old(self).clock_source(),
            r.finished_now == (!old(self).finished() && final(self).finished()),
            buffer_frames > 0 ==> final(self).new_programs().len() == 0 && all_suspended(
                final(self).programs(),
                if old(self).samples() == 0 {
                    0
                } else {
                    old(self).now()
                },
            ),
            exists|states: Seq<Player>, cuts: Seq<int>|
                #![trigger states.len(), cuts.len()]
                {
                    &&& states.len() == cuts.len() >= 1
                    &&& cuts[0] == 0
                    &&& cuts.last() == buffer_frames
                    &&& states[0] == old(self).at_buffer_start()
                    &&& states.last() == *final(self)
                    &&& forall|c: int| 0 <= c < cuts.len() - 1 ==> #[trigger] cuts[c] <= cuts[c + 1]
                    &&& forall|c: int|
                        0 <= c < states.len() - 1 ==> is_pass(
                            #[trigger] states[c],
                            states[c + 1],
                            r.frames@.subrange(cuts[c], cuts[c + 1]),
                        )
                },
    {
        if self.total_samples == 0 {
            self.reset_clock();
        }
        let ghost base = self.now();
        proof {
            assert(base == if old(self).samples() == 0 {
                0
            } else {
                old(self).now()
            });
        }
        let ghost mut states: Seq<Player> = seq![*self];
        let ghost mut cuts: Seq<int> = seq![0int];
        let step = self.pass_frames();
        let mut frames: Vec<Vec<VoiceSample>> = Vec::new();
        let mut finished_now = false;
        let mut done: usize = 0;
        while done < buffer_frames
            invariant
                self.wf(),
                done <= buffer_frames,
                frames@.len() == done,
                self.samples() == old(self).samples() + done,
                old(self).samples() + buffer_frames <= MAX_TOTAL_SAMPLES,
                step >= 1,
                self.clock_source() == old(self).clock_source(),
                finished_now ==> !old(self).finished() && self.finished(),
                old(self).finished() ==> !finished_now && self.finished(),
                !old(self).finished() && !finished_now ==> !self.finished(),
                step == old(self).pass_frames_spec(),
                self.sample_rate() == old(self).sample_rate(),
                self.now() >= base,
                done > 0 ==> self.new_programs().len() == 0 && all_suspended(self.programs(), base),
                forall|c: int| 0 <= c < cuts.len() ==> 0 <= #[trigger] cuts[c] <= done,
                states.len() == cuts.len() >= 1,
                cuts[0] == 0,
                cuts.last() == done,
                states[0] == old(self).at_buffer_start(),
                states.last() == *self,
                forall|c: int| 0 <= c < cuts.len() - 1 ==> #[trigger] cuts[c] <= cuts[c + 1],
                forall|c: int|
                    0 <= c < states.len() - 1 ==> is_pass(
                        #[trigger] states[c],
                        states[c + 1],
                        frames@.subrange(cuts[c], cuts[c + 1]),
                    ),
            decreases buffer_frames - done,
        {
            let left: usize = buffer_frames - done;
            let n: usize = if (left as u64) < step {
                left
            } else {
                step as usize
            };
            let ghost frames0 = frames@;
            let mut pass = self.generate_samples(n);
            let ghost got = pass.frames@;
            frames.append(&mut pass.frames);
            finished_now = finished_now || pass.finished_now;
            proof {
                assert(frames@ =~= frames0 + got);
                let st = states.push(*self);
                let cu = cuts.push(done + n);
                lemma_chain_pass(states, cuts, frames0, got, *self, done as int, st, cu, frames@);
                states = st;
                cuts = cu;
            }
            done = done + n;
        }
        Pass { frames, finished_now }
    }

    /// One pass of an offline render, or `None` once the session has
    /// completed, or has produced as many samples as a session may.
    pub fn render_pass(&mut self) -> (r: Option<Pass>)
        requires
            old(self).wf(),
        ensures
            final(self).wf(),
            old(self).finished() ==> r is None && *final(self) == *old(self),
            !old(self).finished() && old(self).samples() + old(self).pass_frames_spec()
                <= MAX_TOTAL_SAMPLES && old(self).pass_frames_spec() <= usize::MAX ==> r is Some,
            r is None ==> *final(self) == *old(self),
            r matches Some(p) ==> !old(self).finished() && p.frames@.len() == old(self).pass_frames_spec()
                && final(self).samples() == old(self).samples() + p.frames@.len()
                && (p.finished_now <==> final(self).finished()),
            r matches Some(p) ==> all_suspended(final(self).programs(), old(self).now())
                && final(self).new_programs().len() == 0,
            r matches Some(p) ==> p.finished_now == (final(self).programs().len() == 0
                && final(self).registry().voices().len() == 0),
            r matches Some(p) ==> exists|polled: SynthRegistry, played: Seq<crate::synth_registry::Voice>|
                #![trigger keeps_voices(old(self).registry(), polled), advanced(polled.voices(), played, p.frames@.len() as nat)]
                {
                    &&& polled.wf()
                    &&& keeps_voices(old(self).registry(), polled)
                    &&& forall|k: int|
                        0 <= k < p.frames@.len() ==> (#[trigger] p.frames@[k])@ == frame_after(
                            polled.voices(),
                            k as nat,
                        )
                    &&& advanced(polled.voices(), played, p.frames@.len() as nat)
                    &&& final(self).registry().voices() == still_playing(played)
                },
    {
        if self.is_finished {
            return None;
        }
        let n = self.pass_frames();
        if n > MAX_TOTAL_SAMPLES - self.total_samples || n > usize::MAX as u64 {
            return None;
        }
        let pass = self.generate_samples(n as usize);
        proof {
            assert(pass.frames@.len() as nat == (n as usize) as nat);
            let w = choose|polled: SynthRegistry, played: Seq<crate::synth_registry::Voice>|
                #![trigger keeps_voices(old(self).registry(), polled), advanced(polled.voices(), played, (n as usize) as nat)]
                {
                    &&& polled.wf()
                    &&& keeps_voices(old(self).registry(), polled)
                    &&& forall|k: int|
                        0 <= k < n ==> (#[trigger] pass.frames@[k])@ == frame_after(
                            polled.voices(),
                            k as nat,
                        )
                    &&& advanced(polled.voices(), played, (n as usize) as nat)
                    &&& self.registry().voices() == still_playing(played)
                };
            assert(advanced(w.0.voices(), w.1, pass.frames@.len() as nat));
            assert(keeps_voices(old(self).registry(), w.0));
            assert(w.0.wf());
            assert(self.registry().voices() == still_playing(w.1));
            assert(forall|k: int|
                0 <= k < pass.frames@.len() ==> (#[trigger] pass.frames@[k])@ == frame_after(
                    w.0.voices(),
                    k as nat,
                ));
        }
        Some(pass)
    }

    /// Frames of silence that end a rendered file: a quarter of a second.
    pub fn tail_frames(&self) -> (r: u64)
        ensures
            r == self.sample_rate() / 4,
    {
        self.sample_rate / 4
    }

    pub fn is_finished(&self) -> (r: bool)
        ensures
            r == self.finished(),
    {
        self.is_finished
    }

    pub fn current_time(&self) -> (r: u64)
        ensures
            r == self.now(),
    {
        self.current_time_us
    }

    pub fn total_samples(&self) -> (r: u64)
        ensures
            r == self.samples(),
    {
        self.total_samples
    }

    pub fn get_sample_rate(&self) -> (r: u64)
        ensures
            r == self.sample_rate(),
    {
        self.sample_rate
    }

    pub fn get_num_channels(&self) -> (r: u16)
        ensures
            r == self.num_channels(),
    {
        self.num_channels
    }

    pub fn program_count(&self) -> (r: usize)
        ensures
            r == self.programs().len(),
    {
        self.programs.len()
    }

    /// The session's voices.
    pub fn synths(&self) -> (r: &SynthRegistry)
        ensures
            *r == self.registry(),
    {
        &self.registry
    }
}

} // verus!
