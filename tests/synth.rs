use synth_player::player::AudioShapeProxy;
use synth_player::synth::{calculate_wave_delta_per_sample, AudioShape, AudioShapeSynthesizer, Waveform};
use synth_player::synth_registry::SynthRegistry;
use synth_player::tracks::Tracks;

fn shape(frequency: u64, volume: u8) -> AudioShape {
    AudioShape { waveform: Waveform::Sine, frequency, volume }
}

#[test]
fn phase_step_follows_frequency() {
    // 440 Hz at 44100 Hz: 440/44100 of a cycle per sample.
    assert_eq!(calculate_wave_delta_per_sample(44100, 440_000), ((440u128 << 32) / 44100) as u32);
    assert_eq!(calculate_wave_delta_per_sample(8000, 2_000_000), 1 << 30);
    assert_eq!(calculate_wave_delta_per_sample(44100, 0), 0);
}

#[test]
fn amplitude_ramps_one_unit_per_sample() {
    let mut s = AudioShapeSynthesizer::new(shape(440_000, 10), 44100);
    let mut last = s.get_volume();
    assert_eq!(last, 0);
    let mut seen = vec![];
    for _ in 0..15 {
        let out = s.next();
        assert_eq!(out.amplitude, last);
        let now = s.get_volume();
        assert!((now as i32 - last as i32).abs() <= 1);
        seen.push(now);
        last = now;
    }
    assert_eq!(seen[..10].to_vec(), (1..=10).collect::<Vec<u8>>());
    assert!(seen[10..].iter().all(|v| *v == 10));
    s.update_target(shape(440_000, 3));
    for expected in [9u8, 8, 7, 6, 5, 4, 3, 3] {
        s.next();
        assert_eq!(s.get_volume(), expected);
    }
}

#[test]
fn phase_wraps_and_retargeting_keeps_it() {
    let mut s = AudioShapeSynthesizer::new(shape(2_000_000, 0), 8000);
    let phases: Vec<u32> = (0..5).map(|_| s.next().phase).collect();
    assert_eq!(phases, vec![0, 1 << 30, 2 << 30, 3 << 30, 0]);
    s.update_target(shape(0, 0));
    let p = s.next().phase;
    assert_eq!(p, 1 << 30);
    assert_eq!(s.next().phase, 1 << 30);
}

#[test]
fn released_voice_finishes_only_when_silent() {
    let mut s = AudioShapeSynthesizer::new(shape(440_000, 3), 44100);
    for _ in 0..3 {
        s.next();
    }
    assert_eq!(s.get_volume(), 3);
    s.make_inactive();
    assert_eq!(s.get_target().volume, 0);
    assert!(!s.has_finished_playing());
    s.next();
    s.next();
    assert!(!s.has_finished_playing());
    s.next();
    assert!(s.has_finished_playing());
}

#[test]
fn registry_never_drops_an_audible_voice() {
    let mut reg = SynthRegistry::new();
    assert!(reg.is_empty());
    let a = AudioShapeProxy::new(&mut reg, shape(440_000, 0), 44100).unwrap();
    let b = AudioShapeProxy::new(&mut reg, shape(220_000, 0), 44100).unwrap();
    a.set_volume(&mut reg, 5);
    b.set_frequency(&mut reg, 330_000);
    for _ in 0..5 {
        reg.next_sample();
    }
    assert_eq!(reg.get_total_samples(), 5);
    assert_eq!(reg.get_shape(2), Some(shape(330_000, 0)));
    a.release(&mut reg);
    b.release(&mut reg);
    // b is silent and released: it goes at once. a has to ramp down first.
    reg.remove_finished_synths();
    assert_eq!(reg.voice_list().len(), 1);
    for step in 0..5 {
        let v = &reg.voice_list()[0];
        assert_eq!(v.id, 1);
        assert_eq!(v.synth.get_volume(), 5 - step);
        reg.next_sample();
        reg.remove_finished_synths();
    }
    assert!(reg.is_empty());
    assert_eq!(reg.get_shape(1), None);
}

#[test]
fn mix_reports_every_voice() {
    let mut reg = SynthRegistry::new();
    let a = AudioShapeProxy::new(&mut reg, shape(2_000_000, 2), 8000).unwrap();
    let _b = a.duplicate(&mut reg, 8000).unwrap();
    let first = reg.next_sample();
    assert_eq!(first.len(), 2);
    assert_eq!(first[0].amplitude, 0);
    let second = reg.next_sample();
    assert_eq!(second[0].phase, 1 << 30);
    assert_eq!(second[1].phase, 1 << 30);
    assert_eq!(second[1].amplitude, 1);
    assert_eq!(reg.get_shape(2), Some(shape(2_000_000, 2)));
}

#[test]
fn test_it_works() {
    let mut tracks = Tracks::new(&vec![], 8000);
    tracks.try_to_update(Some(&vec![]));
    let value: f64 = tracks.next().iter().map(|s| s.amplitude as f64).sum();
    assert_eq!(Some(value), Some(0.0));
}

#[test]
fn tracks_follow_their_shapes_when_readable() {
    let mut tracks = Tracks::new(&vec![shape(2_000_000, 2), shape(0, 0)], 8000);
    tracks.try_to_update(None);
    let first = tracks.next();
    assert_eq!(first.len(), 2);
    assert_eq!(first[0].amplitude, 0);
    tracks.try_to_update(Some(&vec![shape(2_000_000, 0), shape(4_000_000, 1)]));
    let second = tracks.next();
    assert_eq!(second[0].amplitude, 1);
    assert_eq!(second[0].phase, 1 << 30);
    let third = tracks.next();
    assert_eq!(third[0].amplitude, 0);
    assert_eq!(third[1].amplitude, 1);
    assert_eq!(third[1].phase, 1 << 31);
}
