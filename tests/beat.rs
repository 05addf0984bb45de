use synth_player::beat::{Beat, BeatCounter, BeatSettings, Ratio, TimeSignature};

fn value(r: Ratio) -> f64 {
    r.numer as f64 / r.denom as f64
}

#[test]
fn test_beat_settings_works() {
    let bs = BeatSettings::new(60, TimeSignature::four_four());
    assert_eq!(value(bs.beats_in_duration(Beat::Quarter)), 1.0);
    assert_eq!(value(bs.beats_in_duration(Beat::Half)), 2.0);
    assert_eq!(value(bs.beats_in_duration(Beat::Eighth)), 0.5);
    assert_eq!(value(bs.measure_in_millis()), 4000.0);
}

#[test]
fn test_beat_counter_works() {
    let bs = BeatSettings::new(60, TimeSignature::four_four());
    let mut bc = BeatCounter::new(bs);
    assert_eq!(value(bc.total_millis()), 0.0);
    assert_eq!(value(bc.increment(Beat::Quarter)), 1000.0);
    assert_eq!(value(bc.total_measures()), 0.25);
    assert_eq!(value(bc.total_millis()), 1000.0);

    bc.increment(Beat::Half);
    bc.increment(Beat::Eighth);
    bc.increment(Beat::Eighth);

    assert_eq!(value(bc.total_measures()), 1.0);
    assert_eq!(value(bc.total_millis()), 4000.0);
}

#[test]
fn divisors_and_ticks() {
    let all = [
        (Beat::Whole, 1, 64),
        (Beat::Half, 2, 32),
        (Beat::Quarter, 4, 16),
        (Beat::Eighth, 8, 8),
        (Beat::Sixteenth, 16, 4),
        (Beat::ThirtySecond, 32, 2),
        (Beat::SixtyFourth, 64, 1),
    ];
    for (b, d, t) in all {
        assert_eq!(b.divisor(), d);
        assert_eq!(b.sixty_fourth_beats(), t);
    }
    let ts = TimeSignature::three_four();
    assert_eq!(ts.beats_per_measure(), 3);
    assert_eq!(ts.beat_unit(), Beat::Quarter);
}

#[test]
fn durations_at_sixty_bpm() {
    let bs = BeatSettings::new(60, TimeSignature::four_four());
    assert_eq!(value(bs.duration_in_millis(Beat::Quarter)), 1000.0);
    assert_eq!(value(bs.duration_in_millis(Beat::Half)), 2000.0);
    assert_eq!(value(bs.duration_in_millis(Beat::Eighth)), 500.0);
    assert_eq!(value(bs.measure_in_millis()), 4000.0);
    assert_eq!(bs.duration_in_micros(Beat::Quarter), 1_000_000);
    assert_eq!(bs.duration_in_micros(Beat::Whole), 4_000_000);
}

#[test]
fn doubling_the_tempo_halves_every_duration() {
    let lengths = [
        Beat::Whole,
        Beat::Half,
        Beat::Quarter,
        Beat::Eighth,
        Beat::Sixteenth,
        Beat::ThirtySecond,
        Beat::SixtyFourth,
    ];
    for bpm in [1u64, 7, 60, 97, 120, 240] {
        let slow = BeatSettings::new(bpm, TimeSignature::four_four());
        let fast = BeatSettings::new(bpm * 2, TimeSignature::four_four());
        for l in lengths {
            let s = slow.duration_in_millis(l);
            let f = fast.duration_in_millis(l);
            assert!(value(s) > 0.0);
            assert_eq!(2 * f.numer * s.denom, s.numer * f.denom);
            assert_eq!(s.numer * bpm as u128 * l.divisor() as u128, 60000 * 4 * s.denom);
        }
    }
    let odd = BeatSettings::new(7, TimeSignature(3, Beat::Eighth));
    assert_eq!(odd.duration_in_micros(Beat::Quarter), 60_000_000 * 8 / (7 * 4));
}

#[test]
fn many_increments_do_not_drift() {
    let bs = BeatSettings::new(97, TimeSignature(3, Beat::Eighth));
    let mut bc = BeatCounter::new(bs);
    let pattern = [Beat::Quarter, Beat::Eighth, Beat::SixtyFourth, Beat::Half, Beat::ThirtySecond];
    let mut expected_ticks: u128 = 0;
    for i in 0..10_000 {
        let b = pattern[i % pattern.len()];
        bc.increment(b);
        expected_ticks += 64 / b.divisor() as u128;
    }
    let beats = bc.total_beats();
    assert_eq!(beats.numer, expected_ticks);
    assert_eq!(beats.denom, 8);
    let measures = bc.total_measures();
    assert_eq!(measures.numer, expected_ticks);
    assert_eq!(measures.denom, 24);
}

#[test]
fn measure_boundaries_are_exact() {
    let bs = BeatSettings::new(120, TimeSignature::three_four());
    let mut bc = BeatCounter::new(bs);
    assert!(bc.at_measure_start());
    bc.increment(Beat::Half);
    assert!(!bc.at_measure_start());
    bc.increment(Beat::Quarter);
    assert!(bc.at_measure_start());
    assert_eq!(bc.total_micros(), 1_500_000);
    let mut other = BeatCounter::new(bs);
    other.sync_with(&bc);
    assert_eq!(other.total_beats().numer, bc.total_beats().numer);
    assert!(other.has_room_for(Beat::Whole));
}
