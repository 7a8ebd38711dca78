use tape_stop::dsp::buffer::DelayLine;

const ONE: i32 = 1 << 24;
const HALF_FRAME: u64 = 0x8000_0000;
const FRAME: u64 = 0x1_0000_0000;

fn impulse(frames: usize) -> DelayLine {
    let mut d = DelayLine::new(frames);
    d.write(0, ONE);
    d
}

#[test]
fn length_is_next_power_of_two() {
    assert_eq!(DelayLine::new(0).len(), 1);
    assert_eq!(DelayLine::new(1).len(), 1);
    assert_eq!(DelayLine::new(5).len(), 8);
    assert_eq!(DelayLine::new(8).len(), 8);
    assert_eq!(DelayLine::new(132300).len(), 262144);
}

#[test]
fn impulse_read_at_whole_frame_is_exact() {
    let d = impulse(8);
    assert_eq!(d.read(0), ONE);
    assert_eq!(d.read(FRAME), 0);
    assert_eq!(d.read(7 * FRAME), 0);
}

#[test]
fn impulse_read_half_frame_gives_nine_sixteenths() {
    let d = impulse(8);
    assert_eq!(d.read(HALF_FRAME), 9437184);
    assert_eq!(d.read(HALF_FRAME) as i64 * 16, 9 * ONE as i64);
}

#[test]
fn impulse_neighbours_interpolate_symmetrically() {
    let d = impulse(8);
    // half a frame before the impulse: s0 = 0, s1 = 0, s2 = 1, s3 = 0
    let before = d.read(7 * FRAME + HALF_FRAME);
    assert_eq!(before, 9437184);
}

#[test]
fn write_wraps_modulo_length() {
    let mut d = DelayLine::new(4);
    d.write(6, 42);
    assert_eq!(d.read(2 * FRAME), 42);
    d.write(u32::MAX, 7);
    assert_eq!(d.read(3 * FRAME), 7);
    // frame -1 of frame 0's neighbourhood is the last slot
    assert_eq!(d.read(u64::MAX & !(FRAME - 1)), 7);
}

#[test]
fn linear_ramp_interpolates_midpoint() {
    let mut d = DelayLine::new(8);
    for i in 0..8u32 {
        d.write(i, (i as i32) * 1000);
    }
    assert_eq!(d.read(3 * FRAME + HALF_FRAME), 3500);
}

#[test]
fn reset_silences_buffer() {
    let mut d = impulse(8);
    d.reset();
    assert_eq!(d.len(), 8);
    assert_eq!(d.read(0), 0);
    assert_eq!(d.read(HALF_FRAME), 0);
}

#[test]
fn interpolation_saturates_at_sample_range() {
    let mut d = DelayLine::new(4);
    d.write(0, i32::MIN);
    d.write(1, i32::MAX);
    d.write(2, i32::MAX);
    d.write(3, i32::MIN);
    assert_eq!(d.read(FRAME + HALF_FRAME), i32::MAX);
}
