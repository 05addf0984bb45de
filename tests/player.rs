use synth_player::beat::{Beat, BeatSettings, TimeSignature};
use synth_player::instrument::{Instrument, PAUSE_US};
use synth_player::player::{ClockSource, Player};
use synth_player::synth::{VoiceSample, Waveform};
use synth_player::synth_registry::SynthRegistry;

const C4: u64 = 261_626;
const E4: u64 = 329_628;
const G4: u64 = 391_995;

fn sixty_bpm() -> BeatSettings {
    BeatSettings::new(60, TimeSignature::four_four())
}

fn one_measure_line() -> Instrument {
    let mut hand = Instrument::new(sixty_bpm(), 63, Waveform::Sine);
    hand.play_note(C4, Beat::Quarter);
    hand.play_note(E4, Beat::Half);
    hand.play_note(G4, Beat::Eighth);
    hand.play_note(C4, Beat::Eighth);
    hand
}

fn render_offline(player: &mut Player) -> Vec<Vec<VoiceSample>> {
    let mut frames = vec![];
    while let Some(mut pass) = player.render_pass() {
        frames.append(&mut pass.frames);
    }
    frames
}

#[test]
fn beat_waits_follow_the_counter() {
    let mut hand = Instrument::new(sixty_bpm(), 63, Waveform::Sine);
    let release = -(PAUSE_US as i128);
    assert_eq!(hand.wait_for_beat(Beat::Quarter, release, 0), 950_000);
    assert_eq!(hand.wait_for_beat(Beat::Half, release, 1_000_000), 2_950_000);
    assert_eq!(hand.wait_for_beat(Beat::Eighth, release, 3_000_000), 3_450_000);
    assert_eq!(hand.wait_for_beat(Beat::Eighth, release, 3_500_000), 3_950_000);
    let m = hand.total_measures();
    assert_eq!(m.numer, m.denom);
    // At the next measure line the line is 3 ms late: the next wait is 3 ms shorter.
    assert_eq!(hand.wait_for_beat(Beat::Quarter, release, 4_003_000), 4_950_000);
    // A wait that would be negative is no wait.
    assert_eq!(hand.wait_for_beat(Beat::SixtyFourth, -10_000_000, 5_000_000), 5_000_000);
}

#[test]
fn one_measure_takes_four_seconds() {
    let mut player = Player::new(1, 44100, ClockSource::Samples);
    player.start_program(one_measure_line());
    let pass_us = 1_000_000 * player.pass_frames() / 44100 + 1;
    let mut done_at = None;
    loop {
        let before = player.current_time();
        let pass = player.render_pass();
        if pass.is_none() {
            break;
        }
        if done_at.is_none() && player.program_count() == 0 {
            done_at = Some(before);
        }
    }
    let done_at = done_at.unwrap();
    assert!(done_at >= 4_000_000);
    assert!(done_at <= 4_000_000 + 8 * pass_us);
    assert!(player.is_finished());
}

#[test]
fn chord_sounds_three_voices_together() {
    let mut player = Player::new(1, 44100, ClockSource::Samples);
    let mut hand = Instrument::new(BeatSettings::new(90, TimeSignature::four_four()), 40, Waveform::Triangle);
    hand.play_chord(vec![C4, E4, G4], Beat::Whole);
    player.start_program(hand);
    player.render_pass().unwrap();
    let voices = player.synths().voice_list();
    let targets: Vec<(u64, u8)> = voices.iter().map(|v| (v.synth.get_target().frequency, v.synth.get_target().volume)).collect();
    assert_eq!(targets, vec![(C4, 40), (E4, 40), (G4, 40)]);
    assert!(voices.iter().all(|v| v.synth.get_target().waveform == Waveform::Triangle));
    assert_eq!(player.program_count(), 3);
    let mut counts = vec![];
    while player.render_pass().is_some() {
        let c = player.program_count();
        if counts.last() != Some(&c) {
            counts.push(c);
        }
    }
    assert_eq!(counts, vec![3, 0]);
}

#[test]
fn completion_is_reported_once() {
    let mut player = Player::new(1, 8000, ClockSource::Samples);
    let mut hand = Instrument::new(BeatSettings::new(240, TimeSignature::four_four()), 10, Waveform::Square);
    hand.play_note_without_release(C4, Beat::SixtyFourth);
    player.start_program(hand);
    let mut signals = 0;
    while let Some(pass) = player.render_pass() {
        if pass.finished_now {
            signals += 1;
        }
    }
    assert_eq!(signals, 1);
    assert!(player.is_finished());
    assert!(player.render_pass().is_none());
    assert!(!player.check_finished());
    let after = player.write_audio(100);
    assert!(!after.finished_now);
    assert_eq!(after.frames.len(), 100);
}

#[test]
fn empty_session_completes_at_once() {
    let mut player = Player::new(2, 44100, ClockSource::Samples);
    let pass = player.render_pass().unwrap();
    assert!(pass.finished_now);
    assert_eq!(pass.frames.len(), 22);
    assert!(player.render_pass().is_none());
}

#[test]
fn offline_and_live_rendering_agree() {
    let mut offline = Player::new(1, 44100, ClockSource::Samples);
    offline.start_program(one_measure_line());
    let offline_frames = render_offline(&mut offline);

    let mut live = Player::new(1, 44100, ClockSource::Samples);
    live.start_program(one_measure_line());
    let buffer = 10 * live.pass_frames() as usize;
    let mut live_frames = vec![];
    loop {
        let mut pass = live.write_audio(buffer);
        live_frames.append(&mut pass.frames);
        if pass.finished_now {
            break;
        }
    }
    let a = offline.total_samples();
    let b = live.total_samples();
    assert!(a.abs_diff(b) <= buffer as u64);
    assert_eq!(offline_frames.len() as u64, a);
    assert_eq!(live_frames.len() as u64, b);
    let n = offline_frames.len().min(live_frames.len());
    assert_eq!(offline_frames[..n], live_frames[..n]);
}

#[test]
fn timestamp_clock_ignores_going_back() {
    let mut player = Player::new(1, 48000, ClockSource::Timestamps);
    player.advance_to_timestamp(1_000);
    assert_eq!(player.current_time(), 0);
    player.advance_to_timestamp(5_000);
    assert_eq!(player.current_time(), 4_000);
    player.advance_to_timestamp(3_000);
    assert_eq!(player.current_time(), 4_000);
    player.advance_to_timestamp(3_500);
    assert_eq!(player.current_time(), 4_500);
    player.generate_samples(24);
    assert_eq!(player.current_time(), 4_500);
    assert_eq!(player.total_samples(), 24);
}

#[test]
fn sample_clock_follows_samples() {
    let mut player = Player::new(1, 48000, ClockSource::Samples);
    assert_eq!(player.samples_per_program_loop(), 24);
    assert_eq!(player.tail_frames(), 12000);
    player.generate_samples(24);
    assert_eq!(player.current_time(), 500);
    player.generate_samples(48);
    assert_eq!(player.current_time(), 1500);
    let small = Player::new(1, 1000, ClockSource::Samples);
    assert_eq!(small.samples_per_program_loop(), 0);
    assert_eq!(small.pass_frames(), 1);
}

#[test]
fn rests_and_plain_steps() {
    let mut player = Player::new(1, 8000, ClockSource::Samples);
    let mut hand = Instrument::new(BeatSettings::new(60, TimeSignature::four_four()), 100, Waveform::Sawtooth);
    hand.set_frequency(E4);
    hand.set_volume(20);
    hand.wait(1_000);
    hand.rest(Beat::SixtyFourth);
    player.start_program(hand);
    player.render_pass().unwrap();
    let v = &player.synths().voice_list()[0];
    assert_eq!(v.synth.get_target().frequency, E4);
    assert_eq!(v.synth.get_target().volume, 20);
    // after the wait the rest silences the voice
    while player.current_time() < 1_000 {
        player.render_pass().unwrap();
    }
    player.render_pass().unwrap();
    assert_eq!(player.synths().voice_list()[0].synth.get_target().volume, 0);
    assert_eq!(player.program_count(), 1);
    render_offline(&mut player);
    assert!(player.is_finished());
}

#[test]
fn skipping_moves_the_start_back() {
    let mut hand = Instrument::new(sixty_bpm(), 63, Waveform::Sine);
    hand.skip(Beat::Whole);
    assert_eq!(hand.total_measures().numer, 64);
    // one measure counted, one measure of time taken as passed: no drift at time zero
    assert_eq!(hand.wait_for_beat(Beat::Quarter, 0, 0), 1_000_000);
    let mut other = Instrument::new(sixty_bpm(), 63, Waveform::Sine);
    other.sync_beats_with(&hand);
    assert_eq!(other.beat_counter().total_beats().numer, hand.beat_counter().total_beats().numer);
    assert!(other.is_finished());
}

#[test]
fn scored_ticks_add_up_the_steps() {
    let mut hand = Instrument::new(sixty_bpm(), 63, Waveform::Sine);
    assert_eq!(hand.scored_ticks(), Some(0));
    hand.play_note(C4, Beat::Quarter);
    hand.play_chord(vec![C4, E4], Beat::Half);
    hand.rest(Beat::Eighth);
    hand.wait(1_000);
    hand.set_volume(3);
    hand.play_note_without_release(G4, Beat::Eighth);
    assert_eq!(hand.scored_ticks(), Some(64));
    assert_eq!(one_measure_line().scored_ticks(), Some(64));
}

#[test]
fn a_poll_before_the_wake_time_changes_nothing() {
    let mut reg = SynthRegistry::new();
    let mut spawned = vec![];
    let mut hand = one_measure_line();
    assert!(!hand.poll(0, &mut reg, 44100, &mut spawned));
    let ticks = hand.beat_counter().total_beats().numer;
    assert_eq!(ticks, 16);
    let target = reg.voice_list()[0].synth.get_target();
    assert_eq!(target.frequency, C4);
    assert_eq!(target.volume, 63);
    assert!(!hand.poll(949_999, &mut reg, 44100, &mut spawned));
    assert_eq!(hand.beat_counter().total_beats().numer, 16);
    assert_eq!(reg.voice_list()[0].synth.get_target(), target);
    // at the wake time the release gap starts: silent, same note
    assert!(!hand.poll(950_000, &mut reg, 44100, &mut spawned));
    assert_eq!(reg.voice_list()[0].synth.get_target().volume, 0);
    assert_eq!(hand.beat_counter().total_beats().numer, 16);
    assert!(spawned.is_empty());
}

#[test]
fn measure_start_waits_for_the_counted_time() {
    // At 7 bpm a quarter note lasts 8571428.57... microseconds.
    let mut hand = Instrument::new(BeatSettings::new(7, TimeSignature::four_four()), 63, Waveform::Sine);
    assert_eq!(hand.wait_for_beat(Beat::Quarter, 0, 0), 8_571_428);
    assert_eq!(hand.wait_for_beat(Beat::Quarter, 0, 8_571_428), 17_142_856);
    assert_eq!(hand.wait_for_beat(Beat::Half, 0, 17_142_856), 34_285_713);
    // the next measure line: four quarters counted are 34285714.28... us
    assert_eq!(hand.wait_for_beat(Beat::Quarter, 0, 34_285_713), 42_857_142);
}

#[test]
fn a_line_that_joins_late_counts_from_its_first_poll() {
    let mut player = Player::new(1, 44100, ClockSource::Samples);
    let mut keeper = Instrument::new(sixty_bpm(), 10, Waveform::Sine);
    keeper.wait(10_000_000);
    player.start_program(keeper);
    while player.current_time() < 2_000_000 {
        player.render_pass().unwrap();
    }
    let joined = player.current_time();
    player.start_program(one_measure_line());
    let pass_us = 1_000_000 * player.pass_frames() / 44100 + 1;
    let mut done_at = None;
    while done_at.is_none() {
        let before = player.current_time();
        player.render_pass().unwrap();
        if player.program_count() == 1 {
            done_at = Some(before);
        }
    }
    let done_at = done_at.unwrap();
    assert!(done_at >= joined + 4_000_000);
    assert!(done_at <= joined + 4_000_000 + 8 * pass_us);
}
