use vstd::prelude::*;

verus! {

/// A note length, given by its divisor of a whole note.
#[derive(Debug, Clone, Copy, PartialEq, Eq, Structural)]
pub enum Beat {
    Whole,
    Half,
    Quarter,
    Eighth,
    Sixteenth,
    ThirtySecond,
    SixtyFourth,
}

impl Beat {
    /// How many of this length make up a whole note.
    pub open spec fn spec_divisor(self) -> nat {
        match self {
            Beat::Whole => 1,
            Beat::Half => 2,
            Beat::Quarter => 4,
            Beat::Eighth => 8,
            Beat::Sixteenth => 16,
            Beat::ThirtySecond => 32,
            Beat::SixtyFourth => 64,
        }
    }

    /// How many sixty-fourth notes (ticks) this length lasts.
    pub open spec fn spec_ticks(self) -> nat {
        64nat / self.spec_divisor()
    }

    pub proof fn lemma_ticks_bounds(self)
        ensures
            1 <= self.spec_ticks() <= 64,
            1 <= self.spec_divisor() <= 64,
            self.spec_ticks() * self.spec_divisor() == 64,
    {
        match self {
            Beat::Whole => {},
            Beat::Half => {},
            Beat::Quarter => {},
            Beat::Eighth => {},
            Beat::Sixteenth => {},
            Beat::ThirtySecond => {},
            Beat::SixtyFourth => {},
        }
    }

    pub fn divisor(&self) -> (r: u64)
        ensures
            r == self.spec_divisor(),
    {
        match self {
            Beat::Whole => 1,
            Beat::Half => 2,
            Beat::Quarter => 4,
            Beat::Eighth => 8,
            Beat::Sixteenth => 16,
            Beat::ThirtySecond => 32,
            Beat::SixtyFourth => 64,
        }
    }

    pub fn sixty_fourth_beats(&self) -> (r: u64)
        ensures
            r == self.spec_ticks(),
            r * self.spec_divisor() == 64,
            1 <= r <= 64,
    {
        64 / self.divisor()
    }
}

/// An exact non-negative fraction `numer / denom`.
#[derive(Debug, Clone, Copy)]
pub struct Ratio {
    pub numer: u128,
    pub denom: u128,
}

/// Beats per measure, and the length that counts as one beat.
#[derive(Debug, Clone, Copy)]
pub struct TimeSignature(pub u64, pub Beat);

impl TimeSignature {
    /// Three quarter notes to the measure.
    pub fn three_four() -> (r: TimeSignature)
        ensures
            r.0 == 3 && r.1 == Beat::Quarter,
    {
        TimeSignature(3, Beat::Quarter)
    }

    /// Four quarter notes to the measure.
    pub fn four_four() -> (r: TimeSignature)
        ensures
            r.0 == 4 && r.1 == Beat::Quarter,
    {
        TimeSignature(4, Beat::Quarter)
    }

    pub fn beats_per_measure(&self) -> (r: u64)
        ensures
            r == self.0,
    {
        self.0
    }

    pub fn beat_unit(&self) -> (r: Beat)
        ensures
            r == self.1,
    {
        self.1
    }
}

/// Tempo and time signature of a piece.
#[derive(Debug, Clone, Copy)]
pub struct BeatSettings {
    pub bpm: u64,
    pub time_signature: TimeSignature,
}

impl BeatSettings {
    /// A tempo and a measure length that are both positive.
    pub open spec fn wf(self) -> bool {
        self.bpm > 0 && self.time_signature.0 > 0
    }

    /// `60000 / bpm * (beat unit divisor / length divisor)` milliseconds.
    pub open spec fn spec_duration_ms(self, length: Beat) -> Ratio {
        Ratio {
            numer: (60000 * self.time_signature.1.spec_divisor()) as u128,
            denom: (self.bpm * length.spec_divisor()) as u128,
        }
    }

    /// The same duration in whole microseconds, rounded down.
    pub open spec fn spec_duration_us(self, length: Beat) -> nat {
        (60_000_000 * self.time_signature.1.spec_divisor()) / ((self.bpm * length.spec_divisor()) as nat)
    }

    pub fn new(bpm: u64, time_signature: TimeSignature) -> (r: BeatSettings)
        ensures
            r.bpm == bpm,
            r.time_signature == time_signature,
    {
        BeatSettings { bpm, time_signature }
    }

    /// How many beats of the time signature `length` lasts.
    pub fn beats_in_duration(&self, length: Beat) -> (r: Ratio)
        ensures
            r.numer == self.time_signature.1.spec_divisor(),
            r.denom == length.spec_divisor(),
    {
        let beat_unit_divisor = self.time_signature.beat_unit().divisor();
        let length_divisor = length.divisor();
        Ratio { numer: beat_unit_divisor as u128, denom: length_divisor as u128 }
    }

    pub fn duration_in_millis(&self, length: Beat) -> (r: Ratio)
        requires
            self.wf(),
        ensures
            r == self.spec_duration_ms(length),
    {
        let beat_unit_divisor = self.time_signature.beat_unit().divisor();
        let length_divisor = length.divisor();
        proof {
            lemma_mul_le(self.bpm as nat, length_divisor as nat, u64::MAX as nat, 64);
        }
        Ratio {
            numer: 60000 * beat_unit_divisor as u128,
            denom: self.bpm as u128 * length_divisor as u128,
        }
    }

    pub fn duration_in_micros(&self, length: Beat) -> (r: u64)
        requires
            self.wf(),
        ensures
            r == self.spec_duration_us(length),
            r <= 60_000_000 * 64,
    {
        let beat_unit_divisor = self.time_signature.beat_unit().divisor();
        let length_divisor = length.divisor();
        proof {
            lemma_mul_le(self.bpm as nat, length_divisor as nat, u64::MAX as nat, 64);
        }
        let numer: u128 = 60_000_000 * beat_unit_divisor as u128;
        let denom: u128 = self.bpm as u128 * length_divisor as u128;
        assert(denom >= 1) by (nonlinear_arith)
            requires
                denom == self.bpm * length.spec_divisor(),
                self.bpm >= 1,
                length.spec_divisor() >= 1,
        ;
        assert(numer / denom <= numer) by (nonlinear_arith)
            requires
                denom >= 1,
        ;
        (numer / denom) as u64
    }

    /// One measure: the beat unit's duration times the beats per measure.
    pub fn measure_in_millis(&self) -> (r: Ratio)
        requires
            self.wf(),
        ensures
            r.numer == 60000 * self.time_signature.1.spec_divisor() * self.time_signature.0,
            r.denom == self.bpm * self.time_signature.1.spec_divisor(),
    {
        let unit = self.duration_in_millis(self.time_signature.beat_unit());
        proof {
            lemma_mul_le(unit.numer as nat, self.time_signature.0 as nat, 60000 * 64, u64::MAX as nat);
        }
        Ratio { numer: unit.numer * self.time_signature.beats_per_measure() as u128, denom: unit.denom }
    }
}

/// Counts elapsed musical time in sixty-fourth-note ticks.
#[derive(Debug, Clone, Copy)]
pub struct BeatCounter {
    settings: BeatSettings,
    sixty_fourth_beats: u64,
}

/// The ticks of a sequence of lengths, added up.
pub open spec fn ticks_of(lengths: Seq<Beat>) -> nat
    decreases lengths.len(),
{
    if lengths.len() == 0 {
        0
    } else {
        ticks_of(lengths.drop_last()) + lengths.last().spec_ticks()
    }
}

impl BeatCounter {
    pub closed spec fn settings(self) -> BeatSettings {
        self.settings
    }

    pub closed spec fn ticks(self) -> nat {
        self.sixty_fourth_beats as nat
    }

    /// The counter after one more note of `length`.
    pub closed spec fn spec_increment(self, length: Beat) -> BeatCounter {
        BeatCounter {
            settings: self.settings,
            sixty_fourth_beats: (self.sixty_fourth_beats + length.spec_ticks()) as u64,
        }
    }

    /// Counting a length keeps the settings, and adds its ticks when they fit.
    pub proof fn lemma_spec_increment(self)
        ensures
            forall|l: Beat|
                (#[trigger] self.spec_increment(l)).settings() == self.settings() && (self.ticks()
                    + l.spec_ticks() <= u64::MAX ==> self.spec_increment(l).ticks() == self.ticks()
                    + l.spec_ticks()),
    {
    }

    /// Ticks of one beat of the time signature.
    pub open spec fn unit_ticks(self) -> nat {
        self.settings().time_signature.1.spec_ticks()
    }

    /// Elapsed time in microseconds, rounded down.
    pub open spec fn spec_total_us(self) -> nat {
        (self.ticks() * 60_000_000) / ((self.unit_ticks() * self.settings().bpm) as nat)
    }

    pub fn new(settings: BeatSettings) -> (r: BeatCounter)
        ensures
            r.settings() == settings,
            r.ticks() == 0,
    {
        BeatCounter { settings, sixty_fourth_beats: 0 }
    }

    pub fn beat_settings(&self) -> (r: BeatSettings)
        ensures
            r == self.settings(),
    {
        self.settings
    }

    /// Adds `length` to the count and returns its duration in milliseconds.
    pub fn increment(&mut self, length: Beat) -> (r: Ratio)
        requires
            old(self).settings().wf(),
            old(self).ticks() + length.spec_ticks() <= u64::MAX,
        ensures
            *final(self) == old(self).spec_increment(length),
            final(self).ticks() == old(self).ticks() + length.spec_ticks(),
            final(self).settings() == old(self).settings(),
            r == old(self).settings().spec_duration_ms(length),
    {
        self.sixty_fourth_beats = self.sixty_fourth_beats + length.sixty_fourth_beats();
        self.settings.duration_in_millis(length)
    }

    /// Whether `length` can still be counted without the tick count overflowing.
    pub fn has_room_for(&self, length: Beat) -> (r: bool)
        ensures
            r == (self.ticks() + length.spec_ticks() <= u64::MAX),
    {
        self.sixty_fourth_beats <= u64::MAX - length.sixty_fourth_beats()
    }

    /// Takes over the tick count of `other`, keeping these settings.
    pub fn sync_with(&mut self, other: &BeatCounter)
        ensures
            final(self).ticks() == other.ticks(),
            final(self).settings() == old(self).settings(),
    {
        self.sixty_fourth_beats = other.sixty_fourth_beats;
    }

    pub fn total_beats(&self) -> (r: Ratio)
        ensures
            r.numer == self.ticks(),
            r.denom == self.unit_ticks(),
    {
        Ratio {
            numer: self.sixty_fourth_beats as u128,
            denom: self.settings.time_signature.beat_unit().sixty_fourth_beats() as u128,
        }
    }

    pub fn total_measures(&self) -> (r: Ratio)
        ensures
            r.numer == self.ticks(),
            r.denom == self.unit_ticks() * self.settings().time_signature.0,
    {
        let beats = self.total_beats();
        proof {
            lemma_mul_le(beats.denom as nat, self.settings.time_signature.0 as nat, 64, u64::MAX as nat);
        }
        Ratio {
            numer: beats.numer,
            denom: beats.denom * self.settings.time_signature.beats_per_measure() as u128,
        }
    }

    /// Whether the count stands exactly on a measure line.
    pub fn at_measure_start(&self) -> (r: bool)
        requires
            self.settings().wf(),
        ensures
            r == (self.ticks() % ((self.unit_ticks() * self.settings().time_signature.0) as nat) == 0),
    {
        let m = self.total_measures();
        assert(m.denom > 0) by (nonlinear_arith)
            requires
                m.denom == self.unit_ticks() * self.settings().time_signature.0,
                self.unit_ticks() >= 1,
                self.settings().time_signature.0 >= 1,
        ;
        m.numer % m.denom == 0
    }

    pub fn total_millis(&self) -> (r: Ratio)
        requires
            self.settings().wf(),
        ensures
            r.numer == self.ticks() * 60000,
            r.denom == self.unit_ticks() * self.settings().bpm,
    {
        let beats = self.total_beats();
        proof {
            lemma_mul_le(beats.denom as nat, self.settings.bpm as nat, 64, u64::MAX as nat);
        }
        Ratio { numer: beats.numer * 60000, denom: beats.denom * self.settings.bpm as u128 }
    }

    pub fn total_micros(&self) -> (r: u128)
        requires
            self.settings().wf(),
        ensures
            r == self.spec_total_us(),
    {
        let beats = self.total_beats();
        proof {
            lemma_mul_le(beats.denom as nat, self.settings.bpm as nat, 64, u64::MAX as nat);
        }
        let denom: u128 = beats.denom * self.settings.bpm as u128;
        assert(denom >= 1) by (nonlinear_arith)
            requires
                denom == self.unit_ticks() * self.settings().bpm,
                self.unit_ticks() >= 1,
                self.settings().bpm >= 1,
        ;
        (beats.numer * 60_000_000) / denom
    }
}

proof fn lemma_mul_le(a: nat, b: nat, ma: nat, mb: nat)
    requires
        a <= ma,
        b <= mb,
    ensures
        a * b <= ma * mb,
{
    assert(a * b <= ma * mb) by (nonlinear_arith)
        requires
            a <= ma,
            b <= mb,
    ;
}

/// The duration of any length is positive, and it is `60000 / bpm` milliseconds
/// times the length's share of a beat: doubling the tempo halves every duration.
pub proof fn lemma_duration_scales_with_tempo(s: BeatSettings, length: Beat)
    requires
        s.wf(),
        s.bpm * 2 <= u64::MAX,
    ensures
        s.spec_duration_ms(length).numer > 0,
        s.spec_duration_ms(length).denom > 0,
        ({
            let fast = BeatSettings { bpm: (s.bpm * 2) as u64, time_signature: s.time_signature };
            2 * fast.spec_duration_ms(length).numer * s.spec_duration_ms(length).denom
                == s.spec_duration_ms(length).numer * fast.spec_duration_ms(length).denom
        }),
{
    let d = length.spec_divisor();
    assert(s.bpm * d <= u64::MAX * 64) by (nonlinear_arith)
        requires
            d <= 64,
            s.bpm <= u64::MAX,
    ;
    assert(s.bpm * d > 0) by (nonlinear_arith)
        requires
            d >= 1,
            s.bpm >= 1,
    ;
    assert((s.bpm * 2) * d == 2 * (s.bpm * d)) by (nonlinear_arith);
    let fast = BeatSettings { bpm: (s.bpm * 2) as u64, time_signature: s.time_signature };
    let n = s.spec_duration_ms(length).numer as int;
    assert(fast.spec_duration_ms(length).numer == n);
    assert(fast.spec_duration_ms(length).denom == 2 * s.spec_duration_ms(length).denom);
    assert(2 * n * s.spec_duration_ms(length).denom == n * (2 * s.spec_duration_ms(length).denom)) by (nonlinear_arith);
}

/// Counting a sequence of lengths from zero leaves the exact sum of their ticks,
/// so the beat total is that sum over the ticks of one beat, with no drift.
pub proof fn lemma_total_beats_is_exact_sum(counters: Seq<BeatCounter>, lengths: Seq<Beat>)
    requires
        counters.len() == lengths.len() + 1,
        counters[0].ticks() == 0,
        forall|i: int|
            0 <= i < lengths.len() ==> #[trigger] counters[i + 1] == counters[i].spec_increment(
                lengths[i],
            ) && counters[i].ticks() + lengths[i].spec_ticks() <= u64::MAX,
    ensures
        counters.last().ticks() == ticks_of(lengths),
        counters.last().settings() == counters[0].settings(),
    decreases lengths.len(),
{
    if lengths.len() > 0 {
        let n = lengths.len();
        let shorter = counters.drop_last();
        assert forall|i: int| 0 <= i < n - 1 implies #[trigger] shorter[i + 1]
            == shorter[i].spec_increment(lengths.drop_last()[i]) && shorter[i].ticks()
            + lengths.drop_last()[i].spec_ticks() <= u64::MAX by {
            assert(counters[i + 1] == counters[i].spec_increment(lengths[i]));
        }
        lemma_total_beats_is_exact_sum(shorter, lengths.drop_last());
        assert(counters[n as int] == counters[n - 1].spec_increment(lengths[n - 1]));
    }
}

} // verus!
