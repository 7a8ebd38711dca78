use tape_stop::dsp::engine::{phase_step, stop_time_micros, crossfade};
use tape_stop::fixed::UNIT;
use tape_stop::params::{curve_speed, SyncBeat, TapeCurve};

const CURVES: [TapeCurve; 4] = [TapeCurve::Linear, TapeCurve::Smooth, TapeCurve::SlowStart, TapeCurve::QuickCut];

#[test]
fn curves_fix_both_ends() {
    for c in CURVES {
        assert_eq!(curve_speed(c, 0), 0);
        assert_eq!(curve_speed(c, UNIT), UNIT);
    }
}

#[test]
fn curves_at_half_phase() {
    let h = UNIT / 2;
    assert_eq!(curve_speed(TapeCurve::Linear, h), h);
    assert_eq!(curve_speed(TapeCurve::Smooth, h), h);
    assert_eq!(curve_speed(TapeCurve::SlowStart, h), UNIT / 4 * 3);
    assert_eq!(curve_speed(TapeCurve::QuickCut, h), UNIT / 8);
}

#[test]
fn curves_at_quarter_phase() {
    let q = UNIT / 4;
    // smoothstep(1/4) = 1/16 * (3 - 1/2) = 5/32
    assert_eq!(curve_speed(TapeCurve::Smooth, q), UNIT / 32 * 5);
    // 1 - (3/4)^2 = 7/16
    assert_eq!(curve_speed(TapeCurve::SlowStart, q), UNIT / 16 * 7);
    assert_eq!(curve_speed(TapeCurve::QuickCut, q), UNIT / 64);
}

#[test]
fn quarter_note_at_120_bpm_is_half_a_second() {
    assert_eq!(stop_time_micros(true, SyncBeat::Quarter, 120_000, 2_000_000), 500_000);
}

#[test]
fn beat_divisions_at_120_bpm() {
    assert_eq!(stop_time_micros(true, SyncBeat::Eight, 120_000, 0), 250_000);
    assert_eq!(stop_time_micros(true, SyncBeat::Half, 120_000, 0), 1_000_000);
    assert_eq!(stop_time_micros(true, SyncBeat::OneBar, 120_000, 0), 2_000_000);
    assert_eq!(stop_time_micros(true, SyncBeat::TwoBars, 120_000, 0), 4_000_000);
}

#[test]
fn fractional_tempo() {
    // 60 / 90.5 s for a quarter note, rounded down to the microsecond
    assert_eq!(stop_time_micros(true, SyncBeat::Quarter, 90_500, 0), 662_983);
}

#[test]
fn non_positive_tempo_is_raised_to_one_bpm() {
    assert_eq!(stop_time_micros(true, SyncBeat::Quarter, 0, 0), 60_000_000);
    assert_eq!(stop_time_micros(true, SyncBeat::Quarter, 500, 0), 60_000_000);
}

#[test]
fn without_sync_the_stop_time_is_used() {
    assert_eq!(stop_time_micros(false, SyncBeat::Quarter, 120_000, 1_234_567), 1_234_567);
}

#[test]
fn phase_steps() {
    // half a second at 48 kHz: 24000 frames
    assert_eq!(phase_step(500_000, 48_000), (UNIT + 23_999) / 24_000);
    // a tenth of a second at 1 kHz: 100 frames
    assert_eq!(phase_step(100_000, 1_000), 42_949_673);
    // zero time: the whole range in one frame
    assert_eq!(phase_step(0, 48_000), UNIT);
    assert_eq!(phase_step(u64::MAX, u32::MAX), 1);
}

#[test]
fn crossfade_blends() {
    assert_eq!(crossfade(100, 200, 0), 100);
    assert_eq!(crossfade(100, 200, UNIT), 200);
    assert_eq!(crossfade(100, 200, UNIT / 2), 150);
    assert_eq!(crossfade(-3, 0, UNIT / 2), -2);
    assert_eq!(crossfade(i32::MIN, i32::MAX, UNIT / 2), -1);
}
