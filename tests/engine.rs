use tape_stop::dsp::engine::TapeStopEngine;
use tape_stop::fixed::UNIT;
use tape_stop::params::{SyncBeat, TapeCurve};

const FRAME: u64 = 0x1_0000_0000;

fn step(e: &mut TapeStopEngine, input: &[i32], output: &mut [i32], trigger: bool) {
    e.process(input, output, trigger, 100_000, 100_000, TapeCurve::Linear, false, SyncBeat::Quarter, 120_000, false);
}

#[test]
fn new_engine_is_at_rest() {
    let e = TapeStopEngine::new(48_000, 144_000, 2, Vec::new());
    assert_eq!(e.channels(), 2);
    assert_eq!(e.phase(), UNIT);
    assert_eq!(e.current_speed(), UNIT);
    assert_eq!(e.crossfade_gain(), UNIT);
    assert_eq!(e.write_position(), 0);
    assert_eq!(e.read_position(), 0);
}

#[test]
fn at_rest_output_is_the_input() {
    let mut e = TapeStopEngine::new(1_000, 1_000, 2, Vec::new());
    let mut out = [0i32; 2];
    for i in 0..50 {
        let inp = [i * 10, -i * 3];
        step(&mut e, &inp, &mut out, false);
        assert_eq!(out, inp);
    }
    assert_eq!(e.write_position(), 50);
    assert_eq!(e.read_position(), 50 * FRAME);
}

#[test]
fn phase_and_gain_stay_in_range() {
    let mut e = TapeStopEngine::new(1_000, 1_000, 1, vec![UNIT / 2]);
    let mut out = [0i32; 1];
    let pattern = [true, true, false, true, false, false, false, true];
    for i in 0..4000usize {
        let trig = pattern[(i / 37) % pattern.len()];
        let stop = 1 + (i as u64 % 5) * 30_000;
        e.process(&[i as i32], &mut out, trig, stop, 70_000, TapeCurve::Smooth, i % 3 == 0, SyncBeat::Eight, 200_000, i % 2 == 0);
        assert!(e.phase() <= UNIT);
        assert!(e.crossfade_gain() <= UNIT);
        assert!(e.current_speed() <= UNIT);
    }
}

#[test]
fn stop_and_recovery_cycle() {
    // 1 kHz: stop and start over 100 frames, crossfade over 100 frames
    let mut e = TapeStopEngine::new(1_000, 1_000, 1, Vec::new());
    let mut out = [0i32; 1];
    for _ in 0..100 {
        step(&mut e, &[1], &mut out, true);
        assert_eq!(e.crossfade_gain(), 0);
    }
    assert_eq!(e.phase(), 0);
    assert_eq!(e.current_speed(), 0);
    let frozen = e.read_position();
    step(&mut e, &[1], &mut out, true);
    assert_eq!(e.read_position(), frozen);

    for _ in 0..100 {
        step(&mut e, &[1], &mut out, false);
        assert_eq!(e.crossfade_gain(), 0);
    }
    assert_eq!(e.phase(), UNIT);
    assert_eq!(e.current_speed(), UNIT);

    let mut frames = 0;
    while e.crossfade_gain() < UNIT {
        step(&mut e, &[1], &mut out, false);
        frames += 1;
        assert!(frames <= 101);
    }
    assert_eq!(frames, 100);
    // the read head was moved onto the write head, then both advanced one frame
    assert_eq!(e.read_position(), (e.write_position() as u64) * FRAME);
}

#[test]
fn stopped_tape_repeats_the_frozen_sample() {
    let mut e = TapeStopEngine::new(1_000, 1_000, 1, Vec::new());
    let mut out = [0i32; 1];
    for i in 0..10 {
        step(&mut e, &[i * 100], &mut out, false);
    }
    // one stopping frame at zero stop time: phase drops to zero at once
    e.process(&[1000], &mut out, true, 0, 100_000, TapeCurve::Linear, false, SyncBeat::Quarter, 120_000, false);
    assert_eq!(e.phase(), 0);
    let held = out[0];
    for i in 0..5 {
        e.process(&[i * 7], &mut out, true, 0, 100_000, TapeCurve::Linear, false, SyncBeat::Quarter, 120_000, false);
        assert_eq!(out[0], held);
    }
}

#[test]
fn extra_channels_are_ignored() {
    let mut e = TapeStopEngine::new(1_000, 1_000, 2, Vec::new());
    let mut out = [9i32; 3];
    step(&mut e, &[5, 6, 7], &mut out, false);
    assert_eq!(out, [5, 6, 9]);
    let mut short = [9i32; 1];
    step(&mut e, &[5, 6, 7], &mut short, false);
    assert_eq!(short, [5]);
}

#[test]
fn filter_follows_table_by_speed() {
    let table = vec![0, UNIT / 2, UNIT];
    let mut e = TapeStopEngine::new(1_000, 1_000, 1, table);
    let mut out = [0i32; 1];
    // at full speed the table's last entry applies: no smoothing
    e.process(&[1000], &mut out, false, 100_000, 100_000, TapeCurve::Linear, false, SyncBeat::Quarter, 120_000, true);
    assert_eq!(out, [1000]);
}

#[test]
fn synced_stop_takes_a_quarter_note() {
    // 1 kHz at 120 bpm: a quarter note is 500 frames
    let mut e = TapeStopEngine::new(1_000, 1_000, 1, Vec::new());
    let mut out = [0i32; 1];
    let mut frames = 0;
    while e.phase() > 0 {
        e.process(&[0], &mut out, true, 2_000_000, 100_000, TapeCurve::QuickCut, true, SyncBeat::Quarter, 120_000, false);
        frames += 1;
        assert!(frames <= 500);
    }
    assert_eq!(frames, 500);
}

#[test]
fn reset_returns_to_rest() {
    let mut e = TapeStopEngine::new(1_000, 1_000, 1, Vec::new());
    let mut out = [0i32; 1];
    for _ in 0..30 {
        step(&mut e, &[77], &mut out, true);
    }
    e.reset();
    assert_eq!(e.phase(), UNIT);
    assert_eq!(e.current_speed(), UNIT);
    assert_eq!(e.crossfade_gain(), UNIT);
    assert_eq!(e.write_position(), 0);
    assert_eq!(e.read_position(), 0);
    step(&mut e, &[3], &mut out, true);
    // the delay line was silenced: the tape signal is the sample just written, read at frame 0
    assert_eq!(out, [3]);
}

#[test]
fn filter_smooths_the_tape_signal_when_stopped() {
    let table = vec![UNIT / 2, UNIT, UNIT];
    let mut e = TapeStopEngine::new(1_000, 1_000, 1, table);
    let mut out = [0i32; 1];
    // zero stop time: phase and speed drop to zero in this frame, so the
    // coefficient is the table's first entry
    e.process(&[1000], &mut out, true, 0, 100_000, TapeCurve::Linear, false, SyncBeat::Quarter, 120_000, true);
    assert_eq!(e.current_speed(), 0);
    assert_eq!(out, [500]);
    e.process(&[0], &mut out, true, 0, 100_000, TapeCurve::Linear, false, SyncBeat::Quarter, 120_000, true);
    assert_eq!(out, [750]);
}
