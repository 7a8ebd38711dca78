use tape_stop::dsp::filter::OnePoleLowpass;
use tape_stop::fixed::UNIT;

#[test]
fn new_filter_passes_input_at_once() {
    let mut f = OnePoleLowpass::new();
    assert_eq!(f.coefficient(), UNIT);
    assert_eq!(f.process(12345), 12345);
    assert_eq!(f.process(-777), -777);
    assert_eq!(f.previous_output(), -777);
}

#[test]
fn half_coefficient_moves_half_way_rounding_toward_input() {
    let mut f = OnePoleLowpass::new();
    f.set_cutoff(UNIT / 2);
    assert_eq!(f.process(100), 50);
    assert_eq!(f.process(100), 75);
    assert_eq!(f.process(100), 88);
    assert_eq!(f.process(-100), -6);
}

#[test]
fn constant_input_converges_exactly() {
    let mut f = OnePoleLowpass::new();
    f.set_cutoff(UNIT / 1000);
    let x = 5_000;
    let mut y = 0;
    for _ in 0..x {
        y = f.process(x);
    }
    assert_eq!(y, x);
    assert_eq!(f.process(x), x);
}

#[test]
fn constant_input_converges_from_above() {
    let mut f = OnePoleLowpass::new();
    f.process(1_000_000);
    f.set_cutoff(UNIT / 7);
    let mut y = 0;
    for _ in 0..2_000_000 {
        y = f.process(-3);
    }
    assert_eq!(y, -3);
}

#[test]
fn cutoff_coefficient_is_clamped_to_one() {
    let mut f = OnePoleLowpass::new();
    f.set_cutoff(UNIT * 3);
    assert_eq!(f.coefficient(), UNIT);
    f.set_cutoff(0);
    assert_eq!(f.coefficient(), 0);
    f.process(99);
    assert_eq!(f.previous_output(), 0);
}

#[test]
fn reset_restores_silence_and_unit_coefficient() {
    let mut f = OnePoleLowpass::new();
    f.set_cutoff(10);
    f.process(i32::MAX);
    f.reset();
    assert_eq!(f.previous_output(), 0);
    assert_eq!(f.coefficient(), UNIT);
}

#[test]
fn extreme_step_stays_in_range() {
    let mut f = OnePoleLowpass::new();
    f.process(i32::MIN);
    f.set_cutoff(UNIT - 1);
    let y = f.process(i32::MAX);
    assert_eq!(y, i32::MAX);
}
