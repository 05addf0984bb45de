use vstd::prelude::*;

use crate::beat::{Beat, BeatCounter, BeatSettings, Ratio};
use crate::player::AudioShapeProxy;
use crate::synth::{AudioShape, Waveform};
use crate::synth_registry::{
    keeps_voices, lemma_keeps_has_id, lemma_last_has_id, lemma_others_kept_chain, others_kept,
    SynthRegistry,
};

verus! {

/// Gap left between notes that are not slurred, in microseconds.
pub const PAUSE_US: u64 = 50_000;

/// The earliest start time that skipping ahead may reach: minus two to the hundredth.
pub const MIN_START_US: i128 = -1_267_650_600_228_229_401_496_703_205_376;

/// One action of a musical line.
#[derive(Debug)]
pub enum Step {
    /// Sound a note for `length`; with `release`, the last `PAUSE_US` of it is silent.
    Note { frequency: u64, length: Beat, release: bool },
    /// Sound several notes together: the first on this instrument, each other
    /// one on a copy of it that runs as a line of its own.
    Chord { frequencies: Vec<u64>, length: Beat },
    /// Silence for `length`.
    Rest { length: Beat },
    /// Wait a number of microseconds, outside the beat count.
    Wait { micros: u64 },
    SetFrequency { frequency: u64 },
    SetVolume { volume: u8 },
}

/// Where a line stands within its current step.
#[derive(Debug, Clone, Copy, PartialEq, Eq, Structural)]
pub enum Phase {
    /// About to begin the step.
    Idle,
    /// A note sounds until the wake time; then, with a positive release, it is
    /// silenced for that long.
    Sounding { release_us: u64 },
    /// Waiting for the wake time, after which the step is done.
    Waiting,
}

/// A musical line: a voice, a beat count, and the steps still to perform.
#[derive(Debug)]
pub struct Instrument {
    beat_counter: BeatCounter,
    shape: Option<AudioShapeProxy>,
    max_volume: u8,
    waveform: Waveform,
    start_time_us: i128,
    steps: Vec<Step>,
    next: usize,
    phase: Phase,
    wake_at: u64,
    started: bool,
}

/// Ticks in one measure.
pub open spec fn measure_ticks(c: BeatCounter) -> nat {
    (c.unit_ticks() * c.settings().time_signature.0) as nat
}

/// How long a note or rest of `length` waits, in microseconds, when it
/// begins at `now` with `offset` added. Within a measure it waits the
/// length's duration. At the start of a measure it waits until the counted
/// time after the note, measured from `start`, so that lines that run side
/// by side stay together and rounding does not pile up.
pub open spec fn spec_beat_wait(c: BeatCounter, start: int, length: Beat, offset: int, now: int) -> int {
    if c.ticks() % measure_ticks(c) == 0 {
        c.spec_increment(length).spec_total_us() - (now - start) + offset
    } else {
        c.settings().spec_duration_us(length) + offset
    }
}

/// The wake time for a wait: no wait at all unless it is positive, and never
/// past the end of the clock.
pub open spec fn wake_time(now: u64, wait: int) -> u64 {
    if wait <= 0 {
        now
    } else if now + wait >= u64::MAX {
        u64::MAX
    } else {
        (now + wait) as u64
    }
}

fn wake_after(now: u64, wait: i128) -> (r: u64)
    ensures
        r == wake_time(now, wait as int),
{
    if wait <= 0 {
        now
    } else if wait >= (u64::MAX - now) as i128 {
        u64::MAX
    } else {
        now + wait as u64
    }
}

/// Ticks a step counts when it begins.
pub open spec fn step_ticks(s: Step) -> nat {
    match s {
        Step::Note { length, .. } => length.spec_ticks(),
        Step::Chord { length, .. } => length.spec_ticks(),
        Step::Rest { length } => length.spec_ticks(),
        _ => 0,
    }
}

/// Ticks of the steps from `from` up to, not including, `to`.
pub open spec fn ticks_between(steps: Seq<Step>, from: int, to: int) -> nat
    decreases to - from,
{
    if to <= from {
        0
    } else {
        ticks_between(steps, from, to - 1) + step_ticks(steps[to - 1])
    }
}

pub proof fn lemma_ticks_between_split(steps: Seq<Step>, a: int, b: int, c: int)
    requires
        a <= b <= c,
    ensures
        ticks_between(steps, a, b) + ticks_between(steps, b, c) == ticks_between(steps, a, c),
    decreases c - b,
{
    if b < c {
        lemma_ticks_between_split(steps, a, b, c - 1);
    }
}

/// What a line holds between polls, and the target it has set on its voice.
pub struct LineState {
    pub counter: BeatCounter,
    pub next: nat,
    pub phase: Phase,
    pub wake_at: u64,
    pub target: AudioShape,
}

/// A line that a chord starts: the note it plays, for how long, and the beat
/// count it starts from.
pub struct Spawn {
    pub frequency: u64,
    pub length: Beat,
    pub counter: BeatCounter,
    pub start: int,
}

/// The length still fits in the beat count.
pub open spec fn has_room(c: BeatCounter, length: Beat) -> bool {
    c.ticks() + length.spec_ticks() <= u64::MAX
}

/// A note begins: the voice goes to `frequency` at full volume and the line
/// sleeps for the note's wait less `release_us`.
pub open spec fn begin_note(
    s: LineState,
    frequency: u64,
    length: Beat,
    release_us: u64,
    start: int,
    max_volume: u8,
    now: u64,
) -> LineState {
    LineState {
        counter: s.counter.spec_increment(length),
        phase: Phase::Sounding { release_us },
        wake_at: wake_time(now, spec_beat_wait(s.counter, start, length, -release_us, now as int)),
        target: AudioShape { frequency, volume: max_volume, ..s.target },
        ..s
    }
}

/// The lines a chord of `frequencies` starts: one for each note after the first.
pub open spec fn chord_spawns(
    frequencies: Seq<u64>,
    length: Beat,
    counter: BeatCounter,
    start: int,
) -> Seq<Spawn> {
    Seq::new(
        (frequencies.len() - 1) as nat,
        |j: int| Spawn { frequency: frequencies[j + 1], length, counter, start },
    )
}

/// One move of a line that is due at `now`: the state after it, and the lines
/// it starts.
pub open spec fn line_step(
    s: LineState,
    steps: Seq<Step>,
    start: int,
    max_volume: u8,
    now: u64,
) -> (LineState, Seq<Spawn>) {
    let stop = LineState { next: steps.len(), phase: Phase::Idle, ..s };
    match s.phase {
        Phase::Waiting => (LineState { next: s.next + 1, phase: Phase::Idle, ..s }, Seq::empty()),
        Phase::Sounding { release_us } => if release_us > 0 {
            (
                LineState {
                    phase: Phase::Waiting,
                    wake_at: wake_time(now, release_us as int),
                    target: AudioShape { volume: 0, ..s.target },
                    ..s
                },
                Seq::empty(),
            )
        } else {
            (LineState { next: s.next + 1, phase: Phase::Idle, ..s }, Seq::empty())
        },
        Phase::Idle => match steps[s.next as int] {
            Step::Note { frequency, length, release } => if has_room(s.counter, length) {
                (
                    begin_note(
                        s,
                        frequency,
                        length,
                        if release {
                            PAUSE_US
                        } else {
                            0
                        },
                        start,
                        max_volume,
                        now,
                    ),
                    Seq::empty(),
                )
            } else {
                (stop, Seq::empty())
            },
            Step::Chord { frequencies, length } => if has_room(s.counter, length) {
                (
                    begin_note(s, frequencies@[0], length, PAUSE_US, start, max_volume, now),
                    chord_spawns(frequencies@, length, s.counter, start),
                )
            } else {
                (stop, Seq::empty())
            },
            Step::Rest { length } => if has_room(s.counter, length) {
                (
                    LineState {
                        counter: s.counter.spec_increment(length),
                        phase: Phase::Waiting,
                        wake_at: wake_time(now, spec_beat_wait(s.counter, start, length, 0, now as int)),
                        target: AudioShape { volume: 0, ..s.target },
                        ..s
                    },
                    Seq::empty(),
                )
            } else {
                (stop, Seq::empty())
            },
            Step::Wait { micros } => (
                LineState { phase: Phase::Waiting, wake_at: wake_time(now, micros as int), ..s },
                Seq::empty(),
            ),
            Step::SetFrequency { frequency } => (
                LineState { next: s.next + 1, target: AudioShape { frequency, ..s.target }, ..s },
                Seq::empty(),
            ),
            Step::SetVolume { volume } => (
                LineState { next: s.next + 1, target: AudioShape { volume, ..s.target }, ..s },
                Seq::empty(),
            ),
        },
    }
}

/// A poll at `now`: the line moves on until it waits for a later time or has
/// no step left, at which point it silences its voice. Gives the state it
/// ends in and the lines it starts, in order.
pub open spec fn settle(
    s: LineState,
    steps: Seq<Step>,
    start: int,
    max_volume: u8,
    now: u64,
) -> (LineState, Seq<Spawn>)
    decreases steps.len() - s.next, Instrument::phase_rank(s.phase),
{
    if s.next >= steps.len() {
        (LineState { target: AudioShape { volume: 0, ..s.target }, ..s }, Seq::empty())
    } else if s.phase != Phase::Idle && now < s.wake_at {
        (s, Seq::empty())
    } else {
        let (s1, a) = line_step(s, steps, start, max_volume, now);
        let (s2, b) = settle(s1, steps, start, max_volume, now);
        (s2, a + b)
    }
}

/// The target of a line's voice when it is polled: the registry's, or, for a
/// line without a voice yet, the silent shape its voice starts with.
pub open spec fn entry_target(l: Instrument, reg: SynthRegistry) -> AudioShape {
    match l.voice_id() {
        Some(id) => reg.target_of(id),
        None => AudioShape { waveform: l.waveform(), frequency: 0, volume: 0 },
    }
}

/// A line that is due moves once, then settles from there.
pub proof fn lemma_settle_moves(s: LineState, steps: Seq<Step>, start: int, max_volume: u8, now: u64)
    requires
        s.next < steps.len(),
        !(s.phase != Phase::Idle && now < s.wake_at),
    ensures
        settle(s, steps, start, max_volume, now) == ({
            let (s1, a) = line_step(s, steps, start, max_volume, now);
            (settle(s1, steps, start, max_volume, now).0, a + settle(s1, steps, start, max_volume, now).1)
        }),
{
}

/// A line that waits for a later time stays as it is.
pub proof fn lemma_settle_waits(s: LineState, steps: Seq<Step>, start: int, max_volume: u8, now: u64)
    requires
        s.next < steps.len(),
        s.phase != Phase::Idle,
        now < s.wake_at,
    ensures
        settle(s, steps, start, max_volume, now) == (s, Seq::<Spawn>::empty()),
{
}

/// A line with no step left silences its voice and stays where it is.
pub proof fn lemma_settle_done(s: LineState, steps: Seq<Step>, start: int, max_volume: u8, now: u64)
    requires
        s.next >= steps.len(),
    ensures
        settle(s, steps, start, max_volume, now) == (
        LineState { target: AudioShape { volume: 0, ..s.target }, ..s },
        Seq::<Spawn>::empty(),
    ),
{
}

/// The time a line's counted time runs from, once it has been polled at
/// `now`: a line starts its clock at its first poll.
pub open spec fn start_after_poll(l: Instrument, now: u64) -> int {
    if l.started() {
        l.start()
    } else {
        l.start() + now
    }
}

/// The line's voice, if it has one, was created between `before` and `after`.
pub open spec fn fresh_voice(line: Instrument, before: SynthRegistry, after: SynthRegistry) -> bool {
    match line.voice_id() {
        Some(id) => before.latest_id() < id <= after.latest_id() && after.has_id(id),
        None => true,
    }
}

/// The voices of the lines of `lines` from `from` on are fresh between
/// `before` and `after`, and were created in the order of the lines.
pub open spec fn fresh_in_order(
    lines: Seq<Instrument>,
    from: int,
    before: SynthRegistry,
    after: SynthRegistry,
) -> bool {
    &&& forall|k: int| from <= k < lines.len() ==> fresh_voice(#[trigger] lines[k], before, after)
    &&& forall|k1: int, k2: int|
        from <= k1 < k2 < lines.len() && (#[trigger] lines[k1]).voice_id() is Some && (
        #[trigger] lines[k2]).voice_id() is Some ==> lines[k1].voice_id().unwrap()
            < lines[k2].voice_id().unwrap()
}

/// Lines added after `mid` extend a run of fresh lines made before it.
pub proof fn lemma_fresh_extend(
    before: Seq<Instrument>,
    after: Seq<Instrument>,
    from: int,
    r0: SynthRegistry,
    rm: SynthRegistry,
    r1: SynthRegistry,
)
    requires
        0 <= from <= before.len() <= after.len(),
        forall|k: int| 0 <= k < before.len() ==> #[trigger] after[k] == before[k],
        fresh_in_order(before, from, r0, rm),
        fresh_in_order(after, before.len() as int, rm, r1),
        keeps_voices(rm, r1),
        r0.latest_id() <= rm.latest_id(),
    ensures
        fresh_in_order(after, from, r0, r1),
{
    lemma_keeps_has_id(rm, r1);
    assert forall|k: int| from <= k < after.len() implies fresh_voice(#[trigger] after[k], r0, r1) by {
        if k < before.len() {
            assert(after[k] == before[k]);
            assert(fresh_voice(before[k], r0, rm));
        } else {
            assert(fresh_voice(after[k], rm, r1));
        }
    }
    assert forall|k1: int, k2: int|
        from <= k1 < k2 < after.len() && (#[trigger] after[k1]).voice_id() is Some && (
        #[trigger] after[k2]).voice_id() is Some implies after[k1].voice_id().unwrap()
        < after[k2].voice_id().unwrap() by {
        if k2 < before.len() {
            assert(after[k1] == before[k1] && after[k2] == before[k2]);
        } else if k1 < before.len() {
            assert(after[k1] == before[k1]);
            assert(fresh_voice(before[k1], r0, rm));
            assert(fresh_voice(after[k2], rm, r1));
        }
    }
}

/// `line` is the line that `parent` starts for `sp`.
pub open spec fn spawn_matches(line: Instrument, sp: Spawn, parent: Instrument) -> bool {
    &&& line.wf()
    &&& line.is_leaf()
    &&& line.started()
    &&& line.counter() == sp.counter
    &&& line.start() == sp.start
    &&& line.max_volume() == parent.max_volume()
    &&& line.waveform() == parent.waveform()
    &&& line.steps() == seq![Step::Note { frequency: sp.frequency, length: sp.length, release: true }]
    &&& line.next_step() == 0
    &&& line.phase() == Phase::Idle
}

/// Counting more steps never lowers the total.
pub proof fn lemma_ticks_between_grows(steps: Seq<Step>, b: int, c: int)
    requires
        0 <= b <= c,
    ensures
        ticks_between(steps, 0, b) <= ticks_between(steps, 0, c),
    decreases c - b,
{
    if b < c {
        lemma_ticks_between_grows(steps, b, c - 1);
    }
}

/// A step that holds no chord.
pub open spec fn plain_step(s: Step) -> bool {
    !(s is Chord)
}

impl Instrument {
    pub closed spec fn counter(self) -> BeatCounter {
        self.beat_counter
    }

    pub closed spec fn start(self) -> int {
        self.start_time_us as int
    }

    pub closed spec fn steps(self) -> Seq<Step> {
        self.steps@
    }

    pub closed spec fn next_step(self) -> nat {
        self.next as nat
    }

    pub closed spec fn phase(self) -> Phase {
        self.phase
    }

    pub closed spec fn wake_at(self) -> u64 {
        self.wake_at
    }

    pub closed spec fn started(self) -> bool {
        self.started
    }

    pub closed spec fn voice_id(self) -> Option<u64> {
        match self.shape {
            Some(p) => Some(p.id()),
            None => None,
        }
    }

    pub closed spec fn max_volume(self) -> u8 {
        self.max_volume
    }

    pub closed spec fn waveform(self) -> Waveform {
        self.waveform
    }

    /// The line's state, with `target` standing for its voice's target.
    pub open spec fn line_state(self, target: AudioShape) -> LineState {
        LineState {
            counter: self.counter(),
            next: self.next_step(),
            phase: self.phase(),
            wake_at: self.wake_at(),
            target,
        }
    }

    /// The line after a poll at `now` from `before` whose voice had target `t`.
    pub open spec fn polled_from(self, before: Instrument, t: AudioShape, now: u64) -> bool {
        let r = settle(
            before.line_state(t),
            before.steps(),
            start_after_poll(before, now),
            before.max_volume(),
            now,
        ).0;
        &&& self.counter() == r.counter
        &&& self.next_step() == r.next
        &&& self.phase() == r.phase
        &&& self.wake_at() == r.wake_at
        &&& self.steps() == before.steps()
        &&& self.start() == start_after_poll(before, now)
        &&& self.max_volume() == before.max_volume()
        &&& self.waveform() == before.waveform()
        &&& self.wf()
        &&& self.started()
    }

    pub open spec fn finished(self) -> bool {
        self.next_step() == self.steps().len()
    }

    pub open spec fn wf(self) -> bool {
        &&& self.counter().settings().wf()
        &&& MIN_START_US <= self.start() <= u64::MAX
        &&& !self.started() ==> self.start() <= 0
        &&& self.next_step() <= self.steps().len()
        &&& self.phase() != Phase::Idle ==> self.next_step() < self.steps().len()
        &&& forall|k: int|
            0 <= k < self.steps().len() && #[trigger] self.steps()[k] is Chord
                ==> self.steps()[k]->frequencies@.len() > 0
    }

    /// Steps begun so far: those done, and the current one once it has started.
    pub open spec fn begun(self) -> int {
        self.next_step() + if self.phase() == Phase::Idle {
            0int
        } else {
            1int
        }
    }

    /// Since `before`, the beat count has grown by exactly the ticks of the
    /// steps begun; or the line has ended at a step whose ticks no longer fit
    /// in the count.
    pub open spec fn counted_since(self, before: Instrument) -> bool {
        ||| self.counter().ticks() == before.counter().ticks() + ticks_between(
            self.steps(),
            before.begun(),
            self.begun(),
        )
        ||| self.finished() && exists|j: int|
            before.begun() <= j < self.steps().len() && self.counter().ticks()
                == before.counter().ticks() + ticks_between(self.steps(), before.begun(), j)
                && self.counter().ticks() + step_ticks(#[trigger] self.steps()[j]) > u64::MAX
    }

    /// None of the steps still to come is a chord, so the line never starts another.
    pub open spec fn is_leaf(self) -> bool {
        forall|k: int| self.next_step() <= k < self.steps().len() ==> plain_step(#[trigger] self.steps()[k])
    }

    /// Everything but the list of steps is as in `other`.
    pub open spec fn same_state(self, other: Instrument) -> bool {
        &&& self.counter() == other.counter()
        &&& self.same_but_counter(other)
    }

    /// Everything but the steps and the beat count is as in `other`.
    pub open spec fn same_but_counter(self, other: Instrument) -> bool {
        &&& self.waveform() == other.waveform()
        &&& self.start() == other.start()
        &&& self.next_step() == other.next_step()
        &&& self.phase() == other.phase()
        &&& self.wake_at() == other.wake_at()
        &&& self.started() == other.started()
        &&& self.voice_id() == other.voice_id()
        &&& self.max_volume() == other.max_volume()
    }

    pub fn new(beat_settings: BeatSettings, max_volume: u8, waveform: Waveform) -> (r: Instrument)
        requires
            beat_settings.wf(),
        ensures
            r.wf(),
            r.counter().settings() == beat_settings,
            r.counter().ticks() == 0,
            r.start() == 0,
            r.steps() == Seq::<Step>::empty(),
            r.next_step() == 0,
            r.phase() == Phase::Idle,
            !r.started(),
            r.voice_id() is None,
            r.max_volume() == max_volume,
    {
        Instrument {
            beat_counter: BeatCounter::new(beat_settings),
            shape: None,
            max_volume,
            waveform,
            start_time_us: 0,
            steps: Vec::new(),
            next: 0,
            phase: Phase::Idle,
            wake_at: 0,
            started: false,
        }
    }

    fn add_step(&mut self, step: Step)
        requires
            old(self).wf(),
            step is Chord ==> step->frequencies@.len() > 0,
        ensures
            final(self).wf(),
            final(self).steps() == old(self).steps().push(step),
            final(self).same_state(*old(self)),
    {
        self.steps.push(step);
        proof {
            assert forall|k: int|
                0 <= k < self.steps().len() && #[trigger] self.steps()[k] is Chord implies self.steps()[k]->frequencies@.len()
                > 0 by {
                if k < old(self).steps().len() {
                    assert(self.steps()[k] == old(self).steps()[k]);
                }
            }
        }
    }

    /// Adds a note with a short silence at its end, so that it stands apart
    /// from the next one.
    pub fn play_note(&mut self, frequency: u64, length: Beat)
        requires
            old(self).wf(),
        ensures
            final(self).wf(),
            final(self).steps() == old(self).steps().push(Step::Note { frequency, length, release: true }),
            final(self).same_state(*old(self)),
    {
        self.add_step(Step::Note { frequency, length, release: true });
    }

    /// Adds a note that lasts its whole length, to be slurred into the next.
    pub fn play_note_without_release(&mut self, frequency: u64, length: Beat)
        requires
            old(self).wf(),
        ensures
            final(self).wf(),
            final(self).steps() == old(self).steps().push(Step::Note { frequency, length, release: false }),
            final(self).same_state(*old(self)),
    {
        self.add_step(Step::Note { frequency, length, release: false });
    }

    /// Adds a chord: all notes start together and each lasts `length`.
    pub fn play_chord(&mut self, frequencies: Vec<u64>, length: Beat)
        requires
            old(self).wf(),
            frequencies@.len() > 0,
        ensures
            final(self).wf(),
            final(self).steps() == old(self).steps().push(Step::Chord { frequencies, length }),
            final(self).same_state(*old(self)),
    {
        self.add_step(Step::Chord { frequencies, length });
    }

    pub fn rest(&mut self, length: Beat)
        requires
            old(self).wf(),
        ensures
            final(self).wf(),
            final(self).steps() == old(self).steps().push(Step::Rest { length }),
            final(self).same_state(*old(self)),
    {
        self.add_step(Step::Rest { length });
    }

    pub fn wait(&mut self, micros: u64)
        requires
            old(self).wf(),
        ensures
            final(self).wf(),
            final(self).steps() == old(self).steps().push(Step::Wait { micros }),
            final(self).same_state(*old(self)),
    {
        self.add_step(Step::Wait { micros });
    }

    pub fn set_frequency(&mut self, frequency: u64)
        requires
            old(self).wf(),
        ensures
            final(self).wf(),
            final(self).steps() == old(self).steps().push(Step::SetFrequency { frequency }),
            final(self).same_state(*old(self)),
    {
        self.add_step(Step::SetFrequency { frequency });
    }

    pub fn set_volume(&mut self, volume: u8)
        requires
            old(self).wf(),
        ensures
            final(self).wf(),
            final(self).steps() == old(self).steps().push(Step::SetVolume { volume }),
            final(self).same_state(*old(self)),
    {
        self.add_step(Step::SetVolume { volume });
    }

    /// Counts `length` as already played, and moves the start time back by
    /// the time counted so far.
    pub fn skip(&mut self, length: Beat)
        requires
            old(self).wf(),
            old(self).counter().ticks() + length.spec_ticks() <= u64::MAX,
            old(self).start() - old(self).counter().spec_increment(length).spec_total_us()
                >= MIN_START_US,
        ensures
            final(self).wf(),
            final(self).counter() == old(self).counter().spec_increment(length),
            final(self).start() == old(self).start() - final(self).counter().spec_total_us(),
            final(self).steps() == old(self).steps(),
            final(self).next_step() == old(self).next_step(),
            final(self).phase() == old(self).phase(),
    {
        self.beat_counter.increment(length);
        let total = self.beat_counter.total_micros();
        self.start_time_us = self.start_time_us - total as i128;
    }

    /// Takes over the beat count of `other`, so that both lines stand at the
    /// same place in the piece.
    pub fn sync_beats_with(&mut self, other: &Instrument)
        requires
            old(self).wf(),
        ensures
            final(self).wf(),
            final(self).counter().ticks() == other.counter().ticks(),
            final(self).counter().settings() == old(self).counter().settings(),
            final(self).steps() == old(self).steps(),
            final(self).next_step() == old(self).next_step(),
            final(self).phase() == old(self).phase(),
            final(self).start() == old(self).start(),
    {
        self.beat_counter.sync_with(&other.beat_counter);
    }

    pub fn total_measures(&self) -> (r: Ratio)
        ensures
            r.numer == self.counter().ticks(),
            r.denom == self.counter().unit_ticks() * self.counter().settings().time_signature.0,
    {
        self.beat_counter.total_measures()
    }

    /// The ticks that the whole list of steps counts, or `None` if they do
    /// not fit in a `u64`.
    pub fn scored_ticks(&self) -> (r: Option<u64>)
        ensures
            r matches Some(t) ==> t == ticks_between(self.steps(), 0, self.steps().len() as int),
            r is None ==> ticks_between(self.steps(), 0, self.steps().len() as int) > u64::MAX,
    {
        let mut total: u64 = 0;
        let mut i: usize = 0;
        while i < self.steps.len()
            invariant
                i <= self.steps().len(),
                total == ticks_between(self.steps(), 0, i as int),
            decreases self.steps().len() - i,
        {
            let t: u64 = match &self.steps[i] {
                Step::Note { length, .. } => length.sixty_fourth_beats(),
                Step::Chord { length, .. } => length.sixty_fourth_beats(),
                Step::Rest { length } => length.sixty_fourth_beats(),
                _ => 0,
            };
            proof {
                assert(ticks_between(self.steps(), 0, i + 1) == total + step_ticks(self.steps()[i as int]));
            }
            if total > u64::MAX - t {
                proof {
                    lemma_ticks_between_grows(self.steps(), i as int + 1, self.steps().len() as int);
                }
                return None;
            }
            total = total + t;
            i = i + 1;
        }
        Some(total)
    }

    pub fn beat_counter(&self) -> (r: BeatCounter)
        ensures
            r == self.counter(),
    {
        self.beat_counter
    }

    pub fn is_finished(&self) -> (r: bool)
        ensures
            r == self.finished(),
    {
        self.next == self.steps.len()
    }

    /// Counts `length` and returns when the wait for it ends: its duration
    /// plus `offset`, corrected for drift at the start of a measure.
    pub fn wait_for_beat(&mut self, length: Beat, offset: i128, now: u64) -> (r: u64)
        requires
            old(self).wf(),
            old(self).counter().ticks() + length.spec_ticks() <= u64::MAX,
            -(u64::MAX as int) <= offset <= 0,
        ensures
            r == wake_time(
                now,
                spec_beat_wait(old(self).counter(), old(self).start(), length, offset as int, now as int),
            ),
            final(self).counter() == old(self).counter().spec_increment(length),
            final(self).wf(),
            final(self).same_but_counter(*old(self)),
            final(self).steps() == old(self).steps(),
    {
        if self.beat_counter.at_measure_start() {
            let ghost before = self.counter();
            self.beat_counter.increment(length);
            let total = self.beat_counter.total_micros();
            proof {
                before.lemma_spec_increment();
                self.counter().settings().time_signature.1.lemma_ticks_bounds();
                assert(self.counter().unit_ticks() * self.counter().settings().bpm >= 1)
                    by (nonlinear_arith)
                    requires
                        self.counter().unit_ticks() >= 1,
                        self.counter().settings().bpm >= 1,
                ;
            }
            assert(total <= u64::MAX * 60_000_000) by (nonlinear_arith)
                requires
                    total == (self.counter().ticks() * 60_000_000) / ((self.counter().unit_ticks()
                        * self.counter().settings().bpm) as nat),
                    self.counter().unit_ticks() * self.counter().settings().bpm >= 1,
                    self.counter().ticks() <= u64::MAX,
            ;
            let passed: i128 = now as i128 - self.start_time_us;
            wake_after(now, total as i128 - passed + offset)
        } else {
            let duration = self.beat_counter.beat_settings().duration_in_micros(length);
            self.beat_counter.increment(length);
            wake_after(now, duration as i128 + offset)
        }
    }

    /// The rank of a phase in the order in which a step passes through them.
    pub open spec fn phase_rank(p: Phase) -> nat {
        match p {
            Phase::Idle => 2,
            Phase::Sounding { .. } => 1,
            Phase::Waiting => 0,
        }
    }

    /// Lines spawned since `before`: those already there stay, and every new
    /// one is well formed, started, and starts no line of its own.
    pub open spec fn spawned_leaves(before: Seq<Instrument>, after: Seq<Instrument>) -> bool {
        &&& before.len() <= after.len()
        &&& forall|k: int| 0 <= k < before.len() ==> #[trigger] after[k] == before[k]
        &&& forall|k: int|
            before.len() <= k < after.len() ==> (#[trigger] after[k]).wf() && after[k].is_leaf()
                && after[k].started()
    }

    fn set_voice_frequency(&self, registry: &mut SynthRegistry, frequency: u64)
        requires
            old(registry).wf(),
        ensures
            final(registry).wf(),
            keeps_voices(*old(registry), *final(registry)),
            self.voice_id() matches Some(id) ==> forall|i: int|
                0 <= i < old(registry).voices().len() && old(registry).voices()[i].id == id
                    ==> (#[trigger] final(registry).voices()[i]).synth.target() == (AudioShape {
                    frequency,
                    ..old(registry).voices()[i].synth.target()
                }) && final(registry).voices()[i].synth.volume() == old(registry).voices()[i].synth.volume(),
            self.voice_id() matches Some(id) ==> old(registry).has_id(id) ==> final(registry).has_id(id) && final(registry).target_of(id) == (AudioShape {
                frequency,
                ..old(registry).target_of(id)
            }),
            others_kept(*old(registry), *final(registry), self.voice_id()),
            final(registry).latest_id() == old(registry).latest_id(),
    {
        match &self.shape {
            Some(p) => p.set_frequency(registry, frequency),
            None => {},
        }
        proof {
            match self.voice_id() {
                Some(id) => old(registry).lemma_others_kept(*registry, id),
                None => {},
            }
        }
        proof {
            if self.voice_id() is Some && old(registry).has_id(self.voice_id().unwrap()) {
                let id = self.voice_id().unwrap();
                let i = choose|i: int|
                    0 <= i < old(registry).voices().len() && old(registry).voices()[i].id == id;
                old(registry).lemma_target_of(i);
                registry.lemma_target_of(i);
            }
        }
    }

    fn set_voice_volume(&self, registry: &mut SynthRegistry, volume: u8)
        requires
            old(registry).wf(),
        ensures
            final(registry).wf(),
            keeps_voices(*old(registry), *final(registry)),
            self.voice_id() matches Some(id) ==> forall|i: int|
                0 <= i < old(registry).voices().len() && old(registry).voices()[i].id == id
                    ==> (#[trigger] final(registry).voices()[i]).synth.target() == (AudioShape {
                    volume,
                    ..old(registry).voices()[i].synth.target()
                }) && final(registry).voices()[i].synth.volume() == old(registry).voices()[i].synth.volume(),
            self.voice_id() matches Some(id) ==> old(registry).has_id(id) ==> final(registry).has_id(id) && final(registry).target_of(id) == (AudioShape {
                volume,
                ..old(registry).target_of(id)
            }),
            others_kept(*old(registry), *final(registry), self.voice_id()),
            final(registry).latest_id() == old(registry).latest_id(),
    {
        match &self.shape {
            Some(p) => p.set_volume(registry, volume),
            None => {},
        }
        proof {
            match self.voice_id() {
                Some(id) => old(registry).lemma_others_kept(*registry, id),
                None => {},
            }
        }
        proof {
            if self.voice_id() is Some && old(registry).has_id(self.voice_id().unwrap()) {
                let id = self.voice_id().unwrap();
                let i = choose|i: int|
                    0 <= i < old(registry).voices().len() && old(registry).voices()[i].id == id;
                old(registry).lemma_target_of(i);
                registry.lemma_target_of(i);
            }
        }
    }

    /// Starts a note at `now`: the voice is retuned to `frequency` at full
    /// volume, and the line sleeps for the note's length less `release_us`.
    pub fn sound_note(
        &mut self,
        registry: &mut SynthRegistry,
        frequency: u64,
        length: Beat,
        release_us: u64,
        now: u64,
    )
        requires
            old(self).wf(),
            old(registry).wf(),
            old(self).next_step() < old(self).steps().len(),
            old(self).counter().ticks() + length.spec_ticks() <= u64::MAX,
        ensures
            final(self).wf(),
            final(registry).wf(),
            keeps_voices(*old(registry), *final(registry)),
            final(self).counter() == old(self).counter().spec_increment(length),
            final(self).wake_at() == wake_time(
                now,
                spec_beat_wait(old(self).counter(), old(self).start(), length, -release_us, now as int),
            ),
            final(self).phase() == (Phase::Sounding { release_us }),
            final(self).steps() == old(self).steps(),
            final(self).next_step() == old(self).next_step(),
            final(self).start() == old(self).start(),
            final(self).started() == old(self).started(),
            final(self).voice_id() == old(self).voice_id(),
            final(self).max_volume() == old(self).max_volume(),
            final(self).waveform() == old(self).waveform(),
            old(self).voice_id() matches Some(id) ==> old(registry).has_id(id) ==> final(registry).has_id(id) && final(registry).target_of(id) == (AudioShape {
                frequency,
                volume: old(self).max_volume(),
                ..old(registry).target_of(id)
            }),
            others_kept(*old(registry), *final(registry), old(self).voice_id()),
            final(registry).latest_id() == old(registry).latest_id(),
    {
        let ghost r0 = *registry;
        self.set_voice_frequency(registry, frequency);
        let ghost r1 = *registry;
        self.set_voice_volume(registry, self.max_volume);
        proof {
            lemma_others_kept_chain(r0, r1, *registry, self.voice_id());
        }
        self.wake_at = self.wait_for_beat(length, -(release_us as i128), now);
        self.phase = Phase::Sounding { release_us };
    }

    fn chord_frequency(&self, idx: usize, j: usize) -> (r: u64)
        requires
            idx < self.steps().len(),
            self.steps()[idx as int] is Chord,
            j < self.steps()[idx as int]->frequencies@.len(),
        ensures
            r == self.steps()[idx as int]->frequencies@[j as int],
    {
        match &self.steps[idx] {
            Step::Chord { frequencies, .. } => frequencies[j],
            _ => 0,
        }
    }

    /// A copy of this line that plays one note of `length` on a voice of its own.
    fn copy_for_note(
        &self,
        registry: &mut SynthRegistry,
        sample_rate: u64,
        frequency: u64,
        length: Beat,
    ) -> (r: Instrument)
        requires
            self.wf(),
            old(registry).wf(),
            sample_rate > 0,
        ensures
            final(registry).wf(),
            keeps_voices(*old(registry), *final(registry)),
            r.wf(),
            r.is_leaf(),
            r.started(),
            r.counter() == self.counter(),
            r.start() == self.start(),
            r.steps() == seq![Step::Note { frequency, length, release: true }],
            r.next_step() == 0,
            r.phase() == Phase::Idle,
            r.max_volume() == self.max_volume(),
            r.waveform() == self.waveform(),
            forall|id: u64|
                old(registry).has_id(id) ==> final(registry).has_id(id) && #[trigger] final(
                    registry).target_of(id) == old(registry).target_of(id),
            others_kept(*old(registry), *final(registry), None),
            fresh_voice(r, *old(registry), *final(registry)),
            self.voice_id() is Some && old(registry).latest_id() < u64::MAX ==> r.voice_id() is Some,
    {
        let voice = match &self.shape {
            Some(p) => p.duplicate(registry, sample_rate),
            None => None,
        };
        proof {
            if voice is Some {
                old(registry).lemma_push_keeps_targets(*registry, registry.voices().last());
                lemma_last_has_id(*registry);
            }
        }
        let mut steps: Vec<Step> = Vec::new();
        steps.push(Step::Note { frequency, length, release: true });
        let r = Instrument {
            beat_counter: self.beat_counter,
            shape: voice,
            max_volume: self.max_volume,
            waveform: self.waveform,
            start_time_us: self.start_time_us,
            steps,
            next: 0,
            phase: Phase::Idle,
            wake_at: 0,
            started: true,
        };
        assert(r.steps() =~= seq![Step::Note { frequency, length, release: true }]);
        r
    }

    /// Begins the step that the line stands at.
    fn begin_step(
        &mut self,
        now: u64,
        registry: &mut SynthRegistry,
        sample_rate: u64,
        spawned: &mut Vec<Instrument>,
        Ghost(t): Ghost<AudioShape>,
    )
        requires
            old(self).wf(),
            old(self).phase() == Phase::Idle,
            old(self).next_step() < old(self).steps().len(),
            old(registry).wf(),
            sample_rate > 0,
        ensures
            final(self).wf(),
            final(self).steps() == old(self).steps(),
            final(self).started() == old(self).started(),
            final(self).next_step() > old(self).next_step() || (final(self).next_step()
                == old(self).next_step() && final(self).phase() != Phase::Idle),
            final(self).begun() >= old(self).begun(),
            final(self).counted_since(*old(self)),
            final(self).counter().settings() == old(self).counter().settings(),
            final(registry).wf(),
            keeps_voices(*old(registry), *final(registry)),
            Self::spawned_leaves(old(spawned)@, final(spawned)@),
            plain_step(old(self).steps()[old(self).next_step() as int]) ==> final(spawned)@ == old(
                spawned,
            )@,
            ({
                let (r, sp) = line_step(
                    old(self).line_state(t),
                    old(self).steps(),
                    old(self).start(),
                    old(self).max_volume(),
                    now,
                );
                &&& final(self).line_state(r.target) == r
                &&& final(spawned)@.len() == old(spawned)@.len() + sp.len()
                &&& forall|k: int|
                    0 <= k < sp.len() ==> spawn_matches(
                        #[trigger] final(spawned)@[old(spawned)@.len() + k],
                        sp[k],
                        *old(self),
                    )
                &&& old(self).voice_id() matches Some(id) ==> old(registry).has_id(id) ==> old(
                    registry).target_of(id) == t ==> final(registry).has_id(id) && final(
                    registry).target_of(id) == r.target
            }),
            final(self).voice_id() == old(self).voice_id(),
            final(self).start() == old(self).start(),
            final(self).max_volume() == old(self).max_volume(),
            final(self).waveform() == old(self).waveform(),
            others_kept(*old(registry), *final(registry), old(self).voice_id()),
            forall|k: int|
                old(spawned)@.len() <= k < final(spawned)@.len() ==> fresh_voice(
                    #[trigger] final(spawned)@[k],
                    *old(registry),
                    *final(registry),
                ),
            fresh_in_order(final(spawned)@, old(spawned)@.len() as int, *old(registry), *final(registry)),
    {
        let idx = self.next;
        let n = self.steps.len();
        proof {
            self.counter().lemma_spec_increment();
            reveal_with_fuel(ticks_between, 2);
            assert(ticks_between(self.steps(), idx as int, idx + 1) == step_ticks(
                self.steps()[idx as int],
            ));
            assert(ticks_between(self.steps(), idx as int, idx as int) == 0);
        }
        let step = &self.steps[idx];
        match step {
            Step::Note { frequency, length, release } => {
                let (f, l, rel) = (*frequency, *length, *release);
                if self.beat_counter.has_room_for(l) {
                    let release_us: u64 = if rel { PAUSE_US } else { 0 };
                    self.sound_note(registry, f, l, release_us, now);
                } else {
                    self.next = n;
                }
            },
            Step::Chord { frequencies, length } => {
                let l = *length;
                let count = frequencies.len();
                let first = frequencies[0];
                if self.beat_counter.has_room_for(l) {
                    let mut j: usize = 1;
                    while j < count
                        invariant
                            *self == *old(self),
                            self.wf(),
                            idx == self.next_step(),
                            idx < self.steps().len(),
                            self.steps()[idx as int] is Chord,
                            count == self.steps()[idx as int]->frequencies@.len(),
                            1 <= j <= count,
                            registry.wf(),
                            keeps_voices(*old(registry), *registry),
                            Self::spawned_leaves(old(spawned)@, spawned@),
                            sample_rate > 0,
                            spawned@.len() == old(spawned)@.len() + j - 1,
                            forall|k: int|
                                0 <= k < j - 1 ==> spawn_matches(
                                    #[trigger] spawned@[old(spawned)@.len() + k],
                                    chord_spawns(
                                        self.steps()[idx as int]->frequencies@,
                                        l,
                                        self.counter(),
                                        self.start(),
                                    )[k],
                                    *old(self),
                                ),
                            forall|id: u64|
                                old(registry).has_id(id) ==> registry.has_id(id)
                                    && #[trigger] registry.target_of(id) == old(registry).target_of(id),
                            self.steps()[idx as int]->Chord_length == l,
                            others_kept(*old(registry), *registry, None),
                            forall|k: int|
                                old(spawned)@.len() <= k < spawned@.len() ==> fresh_voice(
                                    #[trigger] spawned@[k],
                                    *old(registry),
                                    *registry,
                                ),
                            fresh_in_order(spawned@, old(spawned)@.len() as int, *old(registry), *registry),
                        decreases count - j,
                    {
                        let f = self.chord_frequency(idx, j);
                        let ghost before = *registry;
                        let ghost sp_before = spawned@;
                        let copy = self.copy_for_note(registry, sample_rate, f, l);
                        spawned.push(copy);
                        proof {
                            lemma_keeps_has_id(before, *registry);
                            lemma_others_kept_chain(*old(registry), before, *registry, None);
                            assert(fresh_in_order(spawned@, sp_before.len() as int, before, *registry)) by {
                                assert(spawned@[sp_before.len() as int] == copy);
                            }
                            lemma_fresh_extend(
                                sp_before,
                                spawned@,
                                old(spawned)@.len() as int,
                                *old(registry),
                                before,
                                *registry,
                            );
                            assert forall|k: int|
                                old(spawned)@.len() <= k < spawned@.len() implies fresh_voice(
                                    #[trigger] spawned@[k],
                                    *old(registry),
                                    *registry,
                                ) by {
                                if k < spawned@.len() - 1 {
                                    assert(spawned@[k] == sp_before[k]);
                                }
                            }
                            assert forall|k: int| 0 <= k < j implies spawn_matches(
                                #[trigger] spawned@[old(spawned)@.len() + k],
                                chord_spawns(
                                    self.steps()[idx as int]->frequencies@,
                                    l,
                                    self.counter(),
                                    self.start(),
                                )[k],
                                *old(self),
                            ) by {
                                if k < j - 1 {
                                    assert(spawned@[old(spawned)@.len() + k] == sp_before[old(
                                        spawned,
                                    )@.len() + k]);
                                }
                            }
                            assert forall|i: int|
                                0 <= i < old(registry).voices().len() implies (
                                #[trigger] registry.voices()[i]).id == old(registry).voices()[i].id by {
                                assert(before.voices()[i].id == old(registry).voices()[i].id);
                            }
                        }
                        j = j + 1;
                    }
                    let ghost before_note = *registry;
                    self.sound_note(registry, first, l, PAUSE_US, now);
                    proof {
                        lemma_keeps_has_id(before_note, *registry);
                        lemma_fresh_extend(
                            spawned@,
                            spawned@,
                            old(spawned)@.len() as int,
                            *old(registry),
                            before_note,
                            *registry,
                        );
                        assert(others_kept(*old(registry), before_note, self.voice_id()));
                        lemma_others_kept_chain(
                            *old(registry),
                            before_note,
                            *registry,
                            self.voice_id(),
                        );
                    }
                } else {
                    self.next = n;
                }
            },
            Step::Rest { length } => {
                let l = *length;
                if self.beat_counter.has_room_for(l) {
                    self.set_voice_volume(registry, 0);
                    self.wake_at = self.wait_for_beat(l, 0, now);
                    self.phase = Phase::Waiting;
                } else {
                    self.next = n;
                }
            },
            Step::Wait { micros } => {
                let us = *micros;
                self.wake_at = wake_after(now, us as i128);
                self.phase = Phase::Waiting;
            },
            Step::SetFrequency { frequency } => {
                let f = *frequency;
                self.set_voice_frequency(registry, f);
                self.next = idx + 1;
            },
            Step::SetVolume { volume } => {
                let v = *volume;
                self.set_voice_volume(registry, v);
                self.next = idx + 1;
            },
        }
    }

    /// Runs the line from where it stands until it has to wait for a time
    /// later than `now`, or until it has no step left: exactly the moves that
    /// `settle` describes. Returns whether it has finished; a finished line
    /// has released its voice.
    /// One move of a line that is due at `now`, as `line_step` describes it.
    fn step_once(
        &mut self,
        now: u64,
        registry: &mut SynthRegistry,
        sample_rate: u64,
        spawned: &mut Vec<Instrument>,
        Ghost(t): Ghost<AudioShape>,
    )
        requires
            old(self).wf(),
            !old(self).finished(),
            !(old(self).phase() != Phase::Idle && now < old(self).wake_at()),
            old(registry).wf(),
            sample_rate > 0,
        ensures
            final(self).wf(),
            final(self).started() == old(self).started(),
            final(self).steps() == old(self).steps(),
            final(self).next_step() >= old(self).next_step(),
            final(self).begun() >= old(self).begun(),
            final(self).counted_since(*old(self)),
            final(self).counter().settings() == old(self).counter().settings(),
            final(registry).wf(),
            keeps_voices(*old(registry), *final(registry)),
            Self::spawned_leaves(old(spawned)@, final(spawned)@),
            old(self).is_leaf() ==> final(spawned)@ == old(spawned)@,
            ({
                let (r, sp) = line_step(
                    old(self).line_state(t),
                    old(self).steps(),
                    old(self).start(),
                    old(self).max_volume(),
                    now,
                );
                &&& final(self).line_state(r.target) == r
                &&& final(spawned)@.len() == old(spawned)@.len() + sp.len()
                &&& forall|k: int|
                    0 <= k < sp.len() ==> spawn_matches(
                        #[trigger] final(spawned)@[old(spawned)@.len() + k],
                        sp[k],
                        *old(self),
                    )
                &&& old(self).voice_id() matches Some(id) ==> old(registry).has_id(id) ==> old(
                    registry).target_of(id) == t ==> final(registry).has_id(id) && final(
                    registry).target_of(id) == r.target
            }),
            final(self).voice_id() == old(self).voice_id(),
            final(self).start() == old(self).start(),
            final(self).max_volume() == old(self).max_volume(),
            final(self).waveform() == old(self).waveform(),
            others_kept(*old(registry), *final(registry), old(self).voice_id()),
            forall|k: int|
                old(spawned)@.len() <= k < final(spawned)@.len() ==> fresh_voice(
                    #[trigger] final(spawned)@[k],
                    *old(registry),
                    *final(registry),
                ),
            fresh_in_order(final(spawned)@, old(spawned)@.len() as int, *old(registry), *final(registry)),
    {
        let ghost begun0 = old(self).begun();
        let n = self.steps.len();
        proof {
            reveal_with_fuel(ticks_between, 2);
            assert(ticks_between(self.steps(), begun0, begun0) == 0);
        }
        match self.phase {
            Phase::Waiting => {
                self.next = self.next + 1;
                self.phase = Phase::Idle;
            },
            Phase::Sounding { release_us } => {
                if release_us > 0 {
                    self.set_voice_volume(registry, 0);
                    self.wake_at = wake_after(now, release_us as i128);
                    self.phase = Phase::Waiting;
                } else {
                    self.next = self.next + 1;
                    self.phase = Phase::Idle;
                }
            },
            Phase::Idle => {
                proof {
                    if old(self).is_leaf() {
                        assert(plain_step(self.steps()[self.next_step() as int]));
                    }
                }
                self.begin_step(now, registry, sample_rate, spawned, Ghost(t));
            },
        }
        proof {
            assert(spawned@ =~= old(spawned)@ + spawned@.subrange(
                old(spawned)@.len() as int,
                spawned@.len() as int,
            ));
        }
    }

    /// Runs the line from where it stands until it has to wait for a time
    /// later than `now`, or until it has no step left: exactly the moves that
    /// `settle` describes. Returns whether it has finished; a finished line
    /// has released its voice.
    #[verifier::rlimit(80)]
    pub fn poll(
        &mut self,
        now: u64,
        registry: &mut SynthRegistry,
        sample_rate: u64,
        spawned: &mut Vec<Instrument>,
    ) -> (done: bool)
        requires
            old(self).wf(),
            old(registry).wf(),
            sample_rate > 0,
        ensures
            final(self).wf(),
            final(self).started(),
            final(self).start() == start_after_poll(*old(self), now),
            final(self).steps() == old(self).steps(),
            final(self).next_step() >= old(self).next_step(),
            done == final(self).finished(),
            final(self).counted_since(*old(self)),
            final(self).counter().settings() == old(self).counter().settings(),
            !done ==> final(self).wake_at() > now,
            final(registry).wf(),
            keeps_voices(*old(registry), *final(registry)),
            Self::spawned_leaves(old(spawned)@, final(spawned)@),
            old(self).is_leaf() ==> final(spawned)@ == old(spawned)@,
            final(self).polled_from(*old(self), entry_target(*old(self), *old(registry)), now),
            ({
                let (r, sp) = settle(
                    old(self).line_state(entry_target(*old(self), *old(registry))),
                    old(self).steps(),
                    start_after_poll(*old(self), now),
                    old(self).max_volume(),
                    now,
                );
                &&& final(spawned)@.len() == old(spawned)@.len() + sp.len()
                &&& forall|k: int|
                    0 <= k < sp.len() ==> spawn_matches(
                        #[trigger] final(spawned)@[old(spawned)@.len() + k],
                        sp[k],
                        *old(self),
                    )
                &&& final(self).voice_id() matches Some(id) ==> (old(self).voice_id() is Some
                    ==> old(registry).has_id(id)) ==> final(registry).has_id(id) && final(
                    registry).target_of(id) == r.target
            }),
            old(self).voice_id() is Some ==> final(self).voice_id() == old(self).voice_id(),
            done ==> (final(self).voice_id() matches Some(id) ==> forall|i: int|
                0 <= i < final(registry).voices().len() && final(registry).voices()[i].id == id
                    ==> !(#[trigger] final(registry).voices()[i]).synth.is_active()),
            others_kept(*old(registry), *final(registry), final(self).voice_id()),
            forall|k: int|
                old(spawned)@.len() <= k < final(spawned)@.len() ==> fresh_voice(
                    #[trigger] final(spawned)@[k],
                    *old(registry),
                    *final(registry),
                ),
            fresh_in_order(final(spawned)@, old(spawned)@.len() as int, *old(registry), *final(registry)),
            old(self).voice_id() is None ==> fresh_voice(*final(self), *old(registry), *final(registry)),
    {
        let ghost t0 = entry_target(*old(self), *old(registry));
        let ghost e = old(self).line_state(t0);
        let ghost goal = settle(
            e,
            old(self).steps(),
            start_after_poll(*old(self), now),
            old(self).max_volume(),
            now,
        );
        if !self.started {
            self.started = true;
            self.start_time_us = self.start_time_us + now as i128;
            if self.shape.is_none() {
                self.shape = AudioShapeProxy::new(
                    registry,
                    AudioShape { waveform: self.waveform, frequency: 0, volume: 0 },
                    sample_rate,
                );
                proof {
                    if self.shape is Some {
                        registry.lemma_target_of(registry.voices().len() - 1);
                        lemma_last_has_id(*registry);
                    }
                }
            }
        }
        let ghost voice = self.voice_id();
        let ghost followed = voice is Some && registry.has_id(voice.unwrap());
        let ghost mut tcur = t0;
        let ghost mut acc: Seq<Spawn> = Seq::empty();
        proof {
            if registry.voices().len() > old(registry).voices().len() {
                old(registry).lemma_push_keeps_targets(*registry, registry.voices().last());
            }
        }
        proof {
            assert(self.line_state(tcur) == e);
            assert(acc + goal.1 =~= goal.1);
        }
        loop
            invariant
                self.wf(),
                self.started(),
                self.steps() == old(self).steps(),
                self.next_step() >= old(self).next_step(),
                self.begun() >= old(self).begun(),
                self.counted_since(*old(self)),
                self.counter().settings() == old(self).counter().settings(),
                registry.wf(),
                keeps_voices(*old(registry), *registry),
                Self::spawned_leaves(old(spawned)@, spawned@),
                old(self).is_leaf() ==> spawned@ == old(spawned)@,
                sample_rate > 0,
                t0 == entry_target(*old(self), *old(registry)),
                e == old(self).line_state(t0),
                goal == settle(
                    e,
                    old(self).steps(),
                    start_after_poll(*old(self), now),
                    old(self).max_volume(),
                    now,
                ),
                settle(self.line_state(tcur), self.steps(), self.start(), self.max_volume(), now).0
                    == goal.0,
                goal.1 == acc + settle(
                    self.line_state(tcur),
                    self.steps(),
                    self.start(),
                    self.max_volume(),
                    now,
                ).1,
                spawned@.len() == old(spawned)@.len() + acc.len(),
                forall|k: int|
                    0 <= k < acc.len() ==> spawn_matches(
                        #[trigger] spawned@[old(spawned)@.len() + k],
                        acc[k],
                        *old(self),
                    ),
                self.voice_id() == voice,
                followed ==> voice is Some,
                old(self).voice_id() is Some ==> voice == old(self).voice_id(),
                followed ==> registry.has_id(voice.unwrap()) && registry.target_of(voice.unwrap())
                    == tcur,
                voice matches Some(id) ==> (old(self).voice_id() is Some ==> old(registry).has_id(
                    id)) ==> followed,
                self.start() == start_after_poll(*old(self), now),
                self.max_volume() == old(self).max_volume(),
                self.waveform() == old(self).waveform(),
                others_kept(*old(registry), *registry, voice),
                forall|k: int|
                    old(spawned)@.len() <= k < spawned@.len() ==> fresh_voice(
                        #[trigger] spawned@[k],
                        *old(registry),
                        *registry,
                    ),
                fresh_in_order(spawned@, old(spawned)@.len() as int, *old(registry), *registry),
                old(self).voice_id() is None ==> fresh_voice(*self, *old(registry), *registry),
            decreases (self.steps().len() - self.next_step()) * 3 + Self::phase_rank(self.phase()),
        {
            let ghost cur = self.line_state(tcur);
            if self.next == self.steps.len() {
                let ghost before_release = *registry;
                match &self.shape {
                    Some(p) => {
                        p.release(registry);
                        proof {
                            before_release.lemma_others_kept(*registry, p.id());
                        }
                    },
                    None => {},
                }
                proof {
                    lemma_keeps_has_id(before_release, *registry);
                    lemma_fresh_extend(
                        spawned@,
                        spawned@,
                        old(spawned)@.len() as int,
                        *old(registry),
                        before_release,
                        *registry,
                    );
                    lemma_others_kept_chain(*old(registry), before_release, *registry, voice);
                }
                proof {
                    lemma_settle_done(cur, self.steps(), self.start(), self.max_volume(), now);
                    assert(acc + Seq::<Spawn>::empty() == acc);
                    assert(goal.1 == acc);
                    assert(goal.0.counter == cur.counter);
                    assert(self.polled_from(*old(self), t0, now));
                }
                return true;
            }
            if self.phase != Phase::Idle && now < self.wake_at {
                proof {
                    lemma_settle_waits(cur, self.steps(), self.start(), self.max_volume(), now);
                    assert(acc + Seq::<Spawn>::empty() == acc);
                    assert(goal.0 == cur);
                    assert(goal.1 == acc);
                    assert(self.polled_from(*old(self), t0, now));
                }
                return false;
            }
            let ghost mid = *registry;
            let ghost spawned_mid = spawned@;
            let ghost line_mid = *self;
            let ghost t_before = tcur;
            self.step_once(now, registry, sample_rate, spawned, Ghost(tcur));
            proof {
                lemma_keeps_has_id(mid, *registry);
                lemma_fresh_extend(
                    spawned_mid,
                    spawned@,
                    old(spawned)@.len() as int,
                    *old(registry),
                    mid,
                    *registry,
                );
                lemma_others_kept_chain(*old(registry), mid, *registry, voice);
                assert forall|k: int|
                    old(spawned)@.len() <= k < spawned@.len() implies fresh_voice(
                        #[trigger] spawned@[k],
                        *old(registry),
                        *registry,
                    ) by {
                    if k < spawned_mid.len() {
                        assert(spawned@[k] == spawned_mid[k]);
                    }
                }
                let st = line_step(cur, self.steps(), self.start(), self.max_volume(), now);
                assert(line_mid.line_state(t_before) == cur);
                tcur = st.0.target;
                assert(line_step(
                    line_mid.line_state(t_before),
                    line_mid.steps(),
                    line_mid.start(),
                    line_mid.max_volume(),
                    now,
                ) == st);
                if followed {
                    let id = voice.unwrap();
                    assert(line_mid.voice_id() == Some(id));
                    assert(mid.has_id(id));
                    assert(mid.target_of(id) == t_before);
                    assert(registry.has_id(id) && registry.target_of(id) == tcur);
                }
                lemma_settle_moves(cur, self.steps(), self.start(), self.max_volume(), now);
                let rest = settle(st.0, self.steps(), self.start(), self.max_volume(), now).1;
                let old_acc = acc;
                acc = acc + st.1;
                assert(old_acc + (st.1 + rest) =~= (old_acc + st.1) + rest);
                assert forall|k: int| 0 <= k < acc.len() implies spawn_matches(
                    #[trigger] spawned@[old(spawned)@.len() + k],
                    acc[k],
                    *old(self),
                ) by {
                    if k < old_acc.len() {
                        assert(spawned@[old(spawned)@.len() + k] == spawned_mid[old(spawned)@.len() + k]);
                    } else {
                        let kk = k - old_acc.len();
                        assert(spawned@[old(spawned)@.len() + k] == spawned@[spawned_mid.len() + kk]);
                        assert(acc[k] == st.1[kk]);
                        assert(spawn_matches(spawned@[spawned_mid.len() + kk], st.1[kk], line_mid));
                    }
                }
                assert forall|i: int| 0 <= i < old(registry).voices().len() implies (
                #[trigger] registry.voices()[i]).id == old(registry).voices()[i].id by {
                    assert(mid.voices()[i].id == old(registry).voices()[i].id);
                }
                assert forall|k: int| 0 <= k < old(spawned)@.len() implies #[trigger] spawned@[k]
                    == old(spawned)@[k] by {
                    assert(spawned_mid[k] == old(spawned)@[k]);
                }
                // The line was not finished before this move, so it had counted
                // exactly; chain the two stretches.
                assert(line_mid.counter().ticks() == old(self).counter().ticks() + ticks_between(
                    self.steps(),
                    old(self).begun(),
                    line_mid.begun(),
                ));
                lemma_ticks_between_split(self.steps(), old(self).begun(), line_mid.begun(), self.begun());
                if !(self.counter().ticks() == line_mid.counter().ticks() + ticks_between(
                    self.steps(),
                    line_mid.begun(),
                    self.begun(),
                )) {
                    let j = choose|j: int|
                        line_mid.begun() <= j < self.steps().len() && self.counter().ticks()
                            == line_mid.counter().ticks() + ticks_between(self.steps(), line_mid.begun(), j)
                            && self.counter().ticks() + step_ticks(#[trigger] self.steps()[j]) > u64::MAX;
                    lemma_ticks_between_split(self.steps(), old(self).begun(), line_mid.begun(), j);
                }
            }
        }
    }
}

} // verus!
