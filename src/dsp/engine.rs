//! The tape-stop engine: a phase/speed state machine driving per-channel
//! delay lines and lowpass filters, with a crossfade back to the live signal.
use vstd::prelude::*;
use vstd::slice::SliceAdditionalExecFns;
use crate::fixed::{UNIT, unit, ceil_div, floor_div};
use crate::params::{TapeCurve, SyncBeat, curve_value, half_beats, curve_speed};
use crate::dsp::buffer::{DelayLine, interpolate, is_capacity_for, frame_span};
use crate::dsp::filter::{OnePoleLowpass, one_pole_step};

verus! {

/// Length of the recovery crossfade, in microseconds.
pub const CROSSFADE_MICROS: u64 = 100_000;

/// Slowest tempo, in thousandths of a beat per minute, that a synced stop uses.
pub const MIN_BPM_MILLI: u64 = 1000;

/// Number of frames at `sample_rate` in `micros` microseconds, rounded down and
/// at least one.
pub open spec fn frames_for(micros: int, sample_rate: int) -> int {
    let n = micros * sample_rate / 1_000_000;
    if n < 1 {
        1
    } else {
        n
    }
}

/// The per-frame phase increment that covers the whole range in `micros`
/// microseconds: `UNIT / frames`, rounded up.
pub open spec fn step_for(micros: int, sample_rate: int) -> int {
    ceil_div(unit(), frames_for(micros, sample_rate))
}

/// Duration of a stop in microseconds: with tempo sync, the chosen division at
/// `bpm_milli / 1000` beats per minute (no slower than one beat per minute),
/// that is `(60 / bpm) * beats` seconds rounded down to the microsecond;
/// otherwise the explicit stop time.
pub open spec fn stop_micros(use_sync: bool, beat: SyncBeat, bpm_milli: int, stop_time_us: int) -> int {
    if use_sync {
        let bpm = if bpm_milli < MIN_BPM_MILLI { MIN_BPM_MILLI as int } else { bpm_milli };
        30_000_000_000 * half_beats(beat) / bpm
    } else {
        stop_time_us
    }
}

/// One transition of the phase and the crossfade gain.
pub open spec fn next_phase(
    phase: int,
    gain: int,
    trigger: bool,
    stop_step: int,
    start_step: int,
    xfade_step: int,
) -> (int, int) {
    let u = unit();
    if trigger {
        (if phase > stop_step { phase - stop_step } else { 0 }, 0)
    } else if phase < u {
        (if phase + start_step > u { u } else { phase + start_step }, 0)
    } else if gain < u {
        (phase, if gain + xfade_step >= u { u } else { gain + xfade_step })
    } else {
        (phase, gain)
    }
}

/// The crossfade completes on this transition, which re-aligns the read head.
pub open spec fn completes_crossfade(phase: int, gain: int, trigger: bool, xfade_step: int) -> bool {
    !trigger && phase >= unit() && gain < unit() && gain + xfade_step >= unit()
}

/// The filter coefficient that the table gives for a speed: the entry at
/// `speed * (len - 1) / UNIT`, or one for an empty table.
pub open spec fn table_coefficient(table: Seq<u64>, speed: int) -> int {
    if table.len() == 0 {
        unit()
    } else {
        table[speed * (table.len() - 1) / unit()] as int
    }
}

/// A coefficient held to `[0, UNIT]`.
pub open spec fn clamp_coefficient(c: int) -> int {
    if c > unit() {
        unit()
    } else {
        c
    }
}

/// The crossfaded output: `tape (1 - g) + dry g`, rounded down.
pub open spec fn mix(tape: int, dry: int, gain: int) -> int {
    (tape * (unit() - gain) + dry * gain) / unit()
}

/// Phase and gain stay in `[0, UNIT]` on every transition.
pub proof fn lemma_phase_bounds(
    phase: int,
    gain: int,
    trigger: bool,
    stop_step: int,
    start_step: int,
    xfade_step: int,
)
    requires
        0 <= phase <= unit(),
        0 <= gain <= unit(),
        stop_step > 0,
        start_step > 0,
        xfade_step > 0,
    ensures
        0 <= next_phase(phase, gain, trigger, stop_step, start_step, xfade_step).0 <= unit(),
        0 <= next_phase(phase, gain, trigger, stop_step, start_step, xfade_step).1 <= unit(),
{
}

/// The phase and gain after `k` transitions with the same controls.
pub open spec fn run_transport(
    phase: int,
    gain: int,
    trigger: bool,
    stop_step: int,
    start_step: int,
    xfade_step: int,
    k: nat,
) -> (int, int)
    decreases k,
{
    if k == 0 {
        (phase, gain)
    } else {
        let nx = next_phase(phase, gain, trigger, stop_step, start_step, xfade_step);
        run_transport(nx.0, nx.1, trigger, stop_step, start_step, xfade_step, (k - 1) as nat)
    }
}

/// Holding the trigger for `k` frames, with `k` steps covering the phase, brings
/// the transport to a standstill with the tape signal alone (phase and gain zero).
pub proof fn lemma_stop_reaches_rest(
    phase: int,
    gain: int,
    stop_step: int,
    start_step: int,
    xfade_step: int,
    k: nat,
)
    requires
        0 <= phase,
        stop_step > 0,
        k >= 1,
        k * stop_step >= phase,
    ensures
        run_transport(phase, gain, true, stop_step, start_step, xfade_step, k) == (0int, 0int),
    decreases k,
{
    let nx = next_phase(phase, gain, true, stop_step, start_step, xfade_step);
    assert(run_transport(phase, gain, true, stop_step, start_step, xfade_step, k)
        == run_transport(nx.0, nx.1, true, stop_step, start_step, xfade_step, (k - 1) as nat));
    if k > 1 {
        assert((k - 1) * stop_step >= nx.0) by (nonlinear_arith)
            requires
                k * stop_step >= phase,
                nx.0 == (if phase > stop_step { phase - stop_step } else { 0 }),
                stop_step > 0,
                k > 1,
        ;
        lemma_stop_reaches_rest(nx.0, nx.1, stop_step, start_step, xfade_step, (k - 1) as nat);
    } else {
        assert(k * stop_step == stop_step) by (nonlinear_arith)
            requires
                k == 1,
        ;
        assert(run_transport(nx.0, nx.1, true, stop_step, start_step, xfade_step, 0) == nx);
    }
}

/// Releasing the trigger from phase `phase`, the phase climbs by `start_step`
/// per frame with the tape signal alone, and reaches one exactly at the first
/// frame `k` whose steps cover the distance.
pub proof fn lemma_restart_reaches_full(
    phase: int,
    stop_step: int,
    start_step: int,
    xfade_step: int,
    k: nat,
)
    requires
        0 <= phase < unit(),
        start_step > 0,
        k >= 1,
        (k - 1) * start_step < unit() - phase <= k * start_step,
    ensures
        run_transport(phase, 0, false, stop_step, start_step, xfade_step, k) == (unit(), 0int),
    decreases k,
{
    let nx = next_phase(phase, 0, false, stop_step, start_step, xfade_step);
    assert(run_transport(phase, 0, false, stop_step, start_step, xfade_step, k)
        == run_transport(nx.0, nx.1, false, stop_step, start_step, xfade_step, (k - 1) as nat));
    if k > 1 {
        assert(phase + start_step < unit()) by (nonlinear_arith)
            requires
                (k - 1) * start_step < unit() - phase,
                k > 1,
                start_step > 0,
        ;
        assert((k - 2) * start_step < unit() - nx.0 <= (k - 1) * start_step) by (nonlinear_arith)
            requires
                (k - 1) * start_step < unit() - phase <= k * start_step,
                nx.0 == phase + start_step,
        ;
        lemma_restart_reaches_full(nx.0, stop_step, start_step, xfade_step, (k - 1) as nat);
    } else {
        assert(k * start_step == start_step && (k - 1) * start_step == 0) by (nonlinear_arith)
            requires
                k == 1,
        ;
        assert(run_transport(nx.0, nx.1, false, stop_step, start_step, xfade_step, 0) == nx);
    }
}

proof fn lemma_ramp_prefix(
    stop_step: int,
    start_step: int,
    xfade_step: int,
    j: nat,
)
    requires
        xfade_step > 0,
        j * xfade_step < unit(),
    ensures
        run_transport(unit(), 0, false, stop_step, start_step, xfade_step, j) == (unit(), j * xfade_step),
    decreases j,
{
    if j == 0 {
        assert(j * xfade_step == 0) by (nonlinear_arith)
            requires
                j == 0,
        ;
    } else {
        let jm = (j - 1) as nat;
        assert(jm * xfade_step < unit()) by (nonlinear_arith)
            requires
                j * xfade_step < unit(),
                jm == j - 1,
                xfade_step > 0,
        ;
        lemma_ramp_prefix(stop_step, start_step, xfade_step, jm);
        lemma_run_split(unit(), 0, false, stop_step, start_step, xfade_step, jm);
        assert(jm * xfade_step + xfade_step == j * xfade_step) by (nonlinear_arith)
            requires
                jm == j - 1,
        ;
    }
}

proof fn lemma_run_split(
    phase: int,
    gain: int,
    trigger: bool,
    stop_step: int,
    start_step: int,
    xfade_step: int,
    k: nat,
)
    ensures
        ({
            let r = run_transport(phase, gain, trigger, stop_step, start_step, xfade_step, k);
            run_transport(phase, gain, trigger, stop_step, start_step, xfade_step, k + 1)
                == next_phase(r.0, r.1, trigger, stop_step, start_step, xfade_step)
        }),
    decreases k,
{
    let nx = next_phase(phase, gain, trigger, stop_step, start_step, xfade_step);
    assert(run_transport(phase, gain, trigger, stop_step, start_step, xfade_step, k + 1)
        == run_transport(nx.0, nx.1, trigger, stop_step, start_step, xfade_step, k));
    if k > 0 {
        assert(run_transport(phase, gain, trigger, stop_step, start_step, xfade_step, k)
            == run_transport(nx.0, nx.1, trigger, stop_step, start_step, xfade_step, (k - 1) as nat));
        lemma_run_split(nx.0, nx.1, trigger, stop_step, start_step, xfade_step, (k - 1) as nat);
    } else {
        assert(run_transport(nx.0, nx.1, trigger, stop_step, start_step, xfade_step, 0) == nx);
    }
}

/// Once the phase is back at one, the crossfade from the tape signal to the
/// live signal takes exactly `frames_for(CROSSFADE_MICROS, sample_rate)` frames,
/// a tenth of a second, for sample rates up to 655350 Hz: before that frame the
/// gain stays below one and no frame completes the crossfade; that frame does,
/// which sets the read head onto the write head.
pub proof fn lemma_crossfade_duration(stop_step: int, start_step: int, sample_rate: int)
    requires
        0 < sample_rate <= 655350,
    ensures
        ({
            let n = frames_for(CROSSFADE_MICROS as int, sample_rate);
            let xs = step_for(CROSSFADE_MICROS as int, sample_rate);
            &&& n == if sample_rate / 10 < 1 { 1 } else { sample_rate / 10 }
            &&& forall|j: nat| j < n ==> (#[trigger] run_transport(unit(), 0, false, stop_step, start_step, xs, j)).1 < unit()
            &&& forall|j: nat| j < n - 1 ==> !completes_crossfade(
                unit(),
                (#[trigger] run_transport(unit(), 0, false, stop_step, start_step, xs, j)).1,
                false,
                xs,
            )
            &&& completes_crossfade(
                unit(),
                run_transport(unit(), 0, false, stop_step, start_step, xs, (n - 1) as nat).1,
                false,
                xs,
            )
            &&& run_transport(unit(), 0, false, stop_step, start_step, xs, n as nat) == (unit(), unit())
        }),
{
    let n = frames_for(CROSSFADE_MICROS as int, sample_rate);
    let xs = step_for(CROSSFADE_MICROS as int, sample_rate);
    let u = unit();
    assert(100_000 * sample_rate / 1_000_000 == sample_rate / 10) by {
        vstd::arithmetic::div_mod::lemma_div_denominator(100_000 * sample_rate, 100_000, 10);
        vstd::arithmetic::div_mod::lemma_div_multiples_vanish(sample_rate, 100_000);
        assert(100_000 * 10 == 1_000_000);
    }
    assert(1 <= n <= 65535);
    assert(xs == (u + n - 1) / n);
    assert(n * xs >= u && (n - 1) * xs < u && xs > 0) by (nonlinear_arith)
        requires
            xs == (u + n - 1) / n,
            1 <= n <= 65535,
            u == 0x1_0000_0000,
    {
        vstd::arithmetic::div_mod::lemma_fundamental_div_mod(u + n - 1, n);
        let r = (u + n - 1) % n;
        assert(u + n - 1 == n * xs + r && 0 <= r < n);
        assert((n - 1) * (u + n - 1) < n * u);
    }
    let last = (n - 1) as nat;
    lemma_ramp_prefix(stop_step, start_step, xs, last);
    assert forall|j: nat| j < n implies (#[trigger] run_transport(u, 0, false, stop_step, start_step, xs, j)).1 < u by {
        assert(j * xs <= last * xs) by (nonlinear_arith)
            requires
                j <= last,
                xs > 0,
        ;
        lemma_ramp_prefix(stop_step, start_step, xs, j);
    }
    assert forall|j: nat| j < n - 1 implies !completes_crossfade(
        u,
        (#[trigger] run_transport(u, 0, false, stop_step, start_step, xs, j)).1,
        false,
        xs,
    ) by {
        assert(j * xs + xs <= last * xs) by (nonlinear_arith)
            requires
                j + 1 <= last,
                xs > 0,
        ;
        lemma_ramp_prefix(stop_step, start_step, xs, j);
    }
    lemma_run_split(u, 0, false, stop_step, start_step, xs, last);
    assert(last * xs + xs >= u) by (nonlinear_arith)
        requires
            n * xs >= u,
            last == n - 1,
    ;
}

proof fn lemma_step_range(micros: int, sample_rate: int)
    requires
        micros >= 0,
        sample_rate >= 0,
    ensures
        1 <= step_for(micros, sample_rate) <= unit(),
{
    let n = frames_for(micros, sample_rate);
    let u = unit();
    assert(1 <= (u + n - 1) / n <= u) by (nonlinear_arith)
        requires
            n >= 1,
            u >= 1,
    ;
}

proof fn lemma_mix_range(tape: int, dry: int, gain: int)
    requires
        0 <= gain <= unit(),
        i32::MIN <= tape <= i32::MAX,
        i32::MIN <= dry <= i32::MAX,
    ensures
        i32::MIN <= mix(tape, dry, gain) <= i32::MAX,
{
    let u = unit();
    let lo = i32::MIN as int;
    let hi = i32::MAX as int;
    assert(lo * u <= tape * (u - gain) + dry * gain <= hi * u) by (nonlinear_arith)
        requires
            0 <= gain <= u,
            lo <= tape <= hi,
            lo <= dry <= hi,
    ;
    assert(lo <= (tape * (u - gain) + dry * gain) / u <= hi) by (nonlinear_arith)
        requires
            lo * u <= tape * (u - gain) + dry * gain <= hi * u,
            u > 0,
    ;
}

/// The per-frame phase increment for a duration of `micros` microseconds.
pub fn phase_step(micros: u64, sample_rate: u32) -> (r: u64)
    ensures
        r == step_for(micros as int, sample_rate as int),
        1 <= r <= UNIT,
{
    proof {
        lemma_step_range(micros as int, sample_rate as int);
    }
    assert(micros as u128 * sample_rate as u128 <= 0xFFFF_FFFF_FFFF_FFFF * 0xFFFF_FFFFu128) by (nonlinear_arith)
        requires
            micros <= 0xFFFF_FFFF_FFFF_FFFFu64,
            sample_rate <= 0xFFFF_FFFFu32,
    ;
    let prod: u128 = micros as u128 * sample_rate as u128;
    let n0: u128 = prod / 1_000_000;
    let n: u128 = if n0 < 1 { 1 } else { n0 };
    ((UNIT as u128 + n - 1) / n) as u64
}

/// The stop duration in microseconds: with tempo sync, `(60 / bpm) * beats`,
/// where the beat division counts 1/2, 1, 2, 4 or 8 beats and `bpm_milli`
/// (thousandths of a beat per minute) is raised to at least one beat per
/// minute; otherwise `stop_time_us`.
pub fn stop_time_micros(use_sync: bool, sync_beat: SyncBeat, bpm_milli: u64, stop_time_us: u64) -> (r: u64)
    ensures
        r == stop_micros(use_sync, sync_beat, bpm_milli as int, stop_time_us as int),
{
    if use_sync {
        let bpm: u64 = if bpm_milli < MIN_BPM_MILLI { MIN_BPM_MILLI } else { bpm_milli };
        let halves: u64 = match sync_beat {
            SyncBeat::Eight => 1,
            SyncBeat::Quarter => 2,
            SyncBeat::Half => 4,
            SyncBeat::OneBar => 8,
            SyncBeat::TwoBars => 16,
        };
        30_000_000_000 * halves / bpm
    } else {
        stop_time_us
    }
}

/// Crossfade of a tape sample and a live sample at gain `gain` (Q32).
pub fn crossfade(tape: i32, dry: i32, gain: u64) -> (r: i32)
    requires
        gain <= UNIT,
    ensures
        r == mix(tape as int, dry as int, gain as int),
{
    proof {
        lemma_mix_range(tape as int, dry as int, gain as int);
    }
    let u: i128 = UNIT as i128;
    let g: i128 = gain as i128;
    assert(-0x8000_0000 * u <= tape as i128 * (u - g) <= 0x8000_0000 * u) by (nonlinear_arith)
        requires
            0 <= g <= u,
            -0x8000_0000 <= tape <= 0x8000_0000,
    ;
    assert(-0x8000_0000 * u <= dry as i128 * g <= 0x8000_0000 * u) by (nonlinear_arith)
        requires
            0 <= g <= u,
            -0x8000_0000 <= dry <= 0x8000_0000,
    ;
    floor_div(tape as i128 * (u - g) + dry as i128 * g, u) as i32
}

/// The transport after one transition: phase, gain and speed updated, and the
/// read head moved onto the write head where the crossfade completes.
pub open spec fn next_transport(
    v: EngineView,
    trigger: bool,
    stop_us: int,
    start_us: int,
    curve: TapeCurve,
) -> EngineView {
    let stop_step = step_for(stop_us, v.sample_rate);
    let start_step = step_for(start_us, v.sample_rate);
    let xfade_step = step_for(CROSSFADE_MICROS as int, v.sample_rate);
    let pg = next_phase(v.phase, v.gain, trigger, stop_step, start_step, xfade_step);
    EngineView {
        phase: pg.0,
        gain: pg.1,
        speed: curve_value(curve, pg.0),
        read_pos: if completes_crossfade(v.phase, v.gain, trigger, xfade_step) {
            v.write_pos * frame_span()
        } else {
            v.read_pos
        },
        ..v
    }
}

/// Number of channels that a frame processes.
pub open spec fn frame_channels(inputs: int, outputs: int, channels: int) -> int {
    let m = if inputs < outputs { inputs } else { outputs };
    if m < channels {
        m
    } else {
        channels
    }
}

/// The state that the engine's contracts speak of.
pub struct EngineView {
    /// Each channel's delay-line contents.
    pub buffers: Seq<Seq<i32>>,
    /// Each channel's filter: last output and coefficient.
    pub filters: Seq<(int, int)>,
    /// Filter coefficients by speed, as in `table_coefficient`.
    pub cutoff_table: Seq<u64>,
    pub sample_rate: int,
    /// Frame counter of the write head, modulo 2^32.
    pub write_pos: int,
    /// Read head in Q32.32 frames, modulo 2^64.
    pub read_pos: int,
    pub phase: int,
    pub speed: int,
    pub gain: int,
}

pub struct TapeStopEngine {
    buffers: Vec<DelayLine>,
    filters: Vec<OnePoleLowpass>,
    cutoff_table: Vec<u64>,
    sample_rate: u32,
    write_pos: u32,
    read_pos: u64,
    phase: u64,
    current_speed: u64,
    crossfade_gain: u64,
}

impl View for TapeStopEngine {
    type V = EngineView;

    closed spec fn view(&self) -> EngineView {
        EngineView {
            buffers: Seq::new(self.buffers@.len(), |i: int| self.buffers@[i]@),
            filters: Seq::new(self.filters@.len(), |i: int| self.filters@[i]@),
            cutoff_table: self.cutoff_table@,
            sample_rate: self.sample_rate as int,
            write_pos: self.write_pos as int,
            read_pos: self.read_pos as int,
            phase: self.phase as int,
            speed: self.current_speed as int,
            gain: self.crossfade_gain as int,
        }
    }
}

impl TapeStopEngine {
    /// One delay line and one filter per channel, each well formed; the phase,
    /// speed and gain lie in `[0, UNIT]`; the sample rate is positive.
    pub closed spec fn wf(&self) -> bool {
        &&& self.buffers@.len() == self.filters@.len()
        &&& forall|i: int| 0 <= i < self.buffers@.len() ==> (#[trigger] self.buffers@[i]).wf()
        &&& forall|i: int| 0 <= i < self.filters@.len() ==> (#[trigger] self.filters@[i]).wf()
        &&& self.phase <= UNIT
        &&& self.current_speed <= UNIT
        &&& self.crossfade_gain <= UNIT
        &&& self.sample_rate > 0
    }

    /// Filter coefficient for `speed` from the cutoff table.
    fn coefficient_for(&self, speed: u64) -> (r: u64)
        requires
            speed <= UNIT,
        ensures
            r == table_coefficient(self.cutoff_table@, speed as int),
    {
        let n = self.cutoff_table.len();
        if n == 0 {
            UNIT
        } else {
            assert(speed as u128 * (n - 1) as u128 <= 0x1_0000_0000 * 0xFFFF_FFFF_FFFF_FFFFu128) by (nonlinear_arith)
                requires
                    speed <= 0x1_0000_0000u64,
                    1 <= n <= 0xFFFF_FFFF_FFFF_FFFFu64,
            ;
            let i: u128 = speed as u128 * (n - 1) as u128 / UNIT as u128;
            assert(speed as int * (n - 1) / unit() <= n - 1) by (nonlinear_arith)
                requires
                    0 <= speed <= unit(),
                    n >= 1,
            ;
            self.cutoff_table[i as usize]
        }
    }

    /// An engine at rest with silent delay lines of the least power-of-two length
    /// that holds `max_frames` samples, one per channel, and filters with
    /// coefficient one. `cutoff_table` gives the filter coefficient by speed.
    pub fn new(sample_rate: u32, max_frames: usize, channels: usize, cutoff_table: Vec<u64>) -> (r: TapeStopEngine)
        requires
            sample_rate > 0,
            max_frames <= 0x8000_0000,
        ensures
            r.wf(),
            r@.buffers.len() == channels,
            forall|c: int| 0 <= c < channels ==> is_capacity_for(#[trigger] r@.buffers[c].len() as int, max_frames as int),
            forall|c: int, j: int| 0 <= c < channels && 0 <= j < r@.buffers[c].len() ==> #[trigger] r@.buffers[c][j] == 0,
            forall|c: int| 0 <= c < channels ==> #[trigger] r@.filters[c] == (0int, unit()),
            r@.cutoff_table == cutoff_table@,
            r@.sample_rate == sample_rate,
            r@.write_pos == 0,
            r@.read_pos == 0,
            r@.phase == unit(),
            r@.speed == unit(),
            r@.gain == unit(),
    {
        let mut buffers: Vec<DelayLine> = Vec::new();
        let mut filters: Vec<OnePoleLowpass> = Vec::new();
        let mut c: usize = 0;
        while c < channels
            invariant
                c <= channels,
                max_frames <= 0x8000_0000,
                buffers@.len() == c,
                filters@.len() == c,
                forall|k: int| 0 <= k < c ==> (#[trigger] buffers@[k]).wf(),
                forall|k: int| 0 <= k < c ==> is_capacity_for(#[trigger] buffers@[k]@.len() as int, max_frames as int),
                forall|k: int, j: int| 0 <= k < c && 0 <= j < buffers@[k]@.len() ==> #[trigger] buffers@[k]@[j] == 0,
                forall|k: int| 0 <= k < c ==> (#[trigger] filters@[k]).wf() && filters@[k]@ == (0int, unit()),
            decreases channels - c,
        {
            buffers.push(DelayLine::new(max_frames));
            filters.push(OnePoleLowpass::new());
            c = c + 1;
        }
        TapeStopEngine {
            buffers,
            filters,
            cutoff_table,
            sample_rate,
            write_pos: 0,
            read_pos: 0,
            phase: UNIT,
            current_speed: UNIT,
            crossfade_gain: UNIT,
        }
    }

    /// Silences every delay line and filter, sets every filter coefficient back
    /// to one, and returns the transport to rest at position zero.
    pub fn reset(&mut self)
        requires
            old(self).wf(),
        ensures
            final(self).wf(),
            final(self)@.buffers.len() == old(self)@.buffers.len(),
            forall|c: int| 0 <= c < final(self)@.buffers.len() ==> #[trigger] final(self)@.buffers[c].len() == old(self)@.buffers[c].len(),
            forall|c: int, j: int| 0 <= c < final(self)@.buffers.len() && 0 <= j < final(self)@.buffers[c].len() ==> #[trigger] final(self)@.buffers[c][j] == 0,
            forall|c: int| 0 <= c < final(self)@.filters.len() ==> #[trigger] final(self)@.filters[c] == (0int, unit()),
            final(self)@.cutoff_table == old(self)@.cutoff_table,
            final(self)@.sample_rate == old(self)@.sample_rate,
            final(self)@.write_pos == 0,
            final(self)@.read_pos == 0,
            final(self)@.phase == unit(),
            final(self)@.speed == unit(),
            final(self)@.gain == unit(),
    {
        let n = self.buffers.len();
        let ghost pre = self.buffers@;
        assert(forall|k: int| 0 <= k < n ==> (#[trigger] pre[k]).wf());
        let mut c: usize = 0;
        while c < n
            invariant
                n == self.buffers@.len(),
                n == pre.len(),
                pre == old(self).buffers@,
                c <= n,
                self.filters@ == old(self).filters@,
                self.cutoff_table@ == old(self).cutoff_table@,
                self.sample_rate == old(self).sample_rate,
                old(self).wf(),
                forall|k: int| 0 <= k < n ==> (#[trigger] pre[k]).wf(),
                forall|k: int| 0 <= k < n ==> (#[trigger] self.buffers@[k]).wf(),
                forall|k: int| 0 <= k < n ==> #[trigger] self.buffers@[k]@.len() == pre[k]@.len(),
                forall|k: int, j: int| 0 <= k < c && 0 <= j < self.buffers@[k]@.len() ==> #[trigger] self.buffers@[k]@[j] == 0,
            decreases n - c,
        {
            self.buffers[c].reset();
            c = c + 1;
        }
        let m = self.filters.len();
        let mut c: usize = 0;
        while c < m
            invariant
                m == self.filters@.len(),
                m == n,
                c <= m,
                n == self.buffers@.len(),
                n == pre.len(),
                pre == old(self).buffers@,
                forall|k: int| 0 <= k < n ==> (#[trigger] self.buffers@[k]).wf(),
                forall|k: int| 0 <= k < n ==> #[trigger] self.buffers@[k]@.len() == pre[k]@.len(),
                forall|k: int, j: int| 0 <= k < n && 0 <= j < self.buffers@[k]@.len() ==> #[trigger] self.buffers@[k]@[j] == 0,
                self.cutoff_table@ == old(self).cutoff_table@,
                self.sample_rate == old(self).sample_rate,
                forall|k: int| 0 <= k < m ==> (#[trigger] self.filters@[k]).wf(),
                forall|k: int| 0 <= k < c ==> #[trigger] self.filters@[k]@ == (0int, unit()),
            decreases m - c,
        {
            let mut f = self.filters[c];
            f.reset();
            self.filters.set(c, f);
            c = c + 1;
        }
        self.write_pos = 0;
        self.read_pos = 0;
        self.phase = UNIT;
        self.current_speed = UNIT;
        self.crossfade_gain = UNIT;
    }

    /// One transition of the transport; delay lines and filters are untouched.
    fn advance_transport(&mut self, trigger: bool, stop_us: u64, start_us: u64, curve_type: TapeCurve)
        requires
            old(self).wf(),
        ensures
            final(self).wf(),
            final(self)@ == next_transport(old(self)@, trigger, stop_us as int, start_us as int, curve_type),
            final(self).buffers@ == old(self).buffers@,
            final(self).filters@ == old(self).filters@,
    {
        let stop_step = phase_step(stop_us, self.sample_rate);
        let start_step = phase_step(start_us, self.sample_rate);
        let xfade_step = phase_step(CROSSFADE_MICROS, self.sample_rate);
        if trigger {
            self.phase = if self.phase > stop_step { self.phase - stop_step } else { 0 };
            self.crossfade_gain = 0;
        } else if self.phase < UNIT {
            self.phase = if self.phase + start_step > UNIT { UNIT } else { self.phase + start_step };
            self.crossfade_gain = 0;
        } else if self.crossfade_gain < UNIT {
            if self.crossfade_gain + xfade_step >= UNIT {
                self.crossfade_gain = UNIT;
                self.read_pos = self.write_pos as u64 * 0x1_0000_0000;
            } else {
                self.crossfade_gain = self.crossfade_gain + xfade_step;
            }
        }
        self.current_speed = curve_speed(curve_type, self.phase);
        proof {
            let t = next_transport(old(self)@, trigger, stop_us as int, start_us as int, curve_type);
            assert(self@.buffers =~= t.buffers);
            assert(self@.filters =~= t.filters);
        }
    }

    /// Gives every filter the coefficient `coef`; nothing else changes.
    fn retune_filters(&mut self, coef: u64)
        requires
            old(self).wf(),
        ensures
            final(self).wf(),
            final(self).filters@.len() == old(self).filters@.len(),
            forall|k: int| 0 <= k < final(self).filters@.len() ==> #[trigger] final(self).filters@[k]@ == (
                old(self).filters@[k]@.0,
                clamp_coefficient(coef as int),
            ),
            final(self).buffers@ == old(self).buffers@,
            final(self).cutoff_table@ == old(self).cutoff_table@,
            final(self).sample_rate == old(self).sample_rate,
            final(self).write_pos == old(self).write_pos,
            final(self).read_pos == old(self).read_pos,
            final(self).phase == old(self).phase,
            final(self).current_speed == old(self).current_speed,
            final(self).crossfade_gain == old(self).crossfade_gain,
    {
        let m = self.filters.len();
        let mut c: usize = 0;
        while c < m
            invariant
                m == self.filters@.len(),
                m == old(self).filters@.len(),
                c <= m,
                old(self).wf(),
                forall|k: int| 0 <= k < m ==> (#[trigger] self.filters@[k]).wf(),
                forall|k: int| 0 <= k < c ==> #[trigger] self.filters@[k]@ == (
                    old(self).filters@[k]@.0,
                    clamp_coefficient(coef as int),
                ),
                forall|k: int| c <= k < m ==> #[trigger] self.filters@[k] == old(self).filters@[k],
                self.buffers@ == old(self).buffers@,
                self.cutoff_table@ == old(self).cutoff_table@,
                self.sample_rate == old(self).sample_rate,
                self.write_pos == old(self).write_pos,
                self.read_pos == old(self).read_pos,
                self.phase == old(self).phase,
                self.current_speed == old(self).current_speed,
                self.crossfade_gain == old(self).crossfade_gain,
            decreases m - c,
        {
            let mut fl = self.filters[c];
            fl.set_cutoff(coef);
            self.filters.set(c, fl);
            c = c + 1;
        }
    }

    /// Advances the engine by one frame.
    ///
    /// The phase and crossfade gain take one transition (`next_transport`),
    /// stopping over `stop_time_micros(use_sync, sync_beat, bpm_milli,
    /// stop_time_us)` and restarting over `start_time_us`; when filtering is on,
    /// every filter takes the table's coefficient for the new speed. Then, for
    /// each channel that the input, the output and the engine all have, the
    /// input sample is written at the write head, the delay line is read at the
    /// read head, filtered when filtering is on, and crossfaded with the input
    /// into the output. Finally the write head moves one frame and the read
    /// head moves by the speed.
    #[verifier::rlimit(60)]
    pub fn process(
        &mut self,
        input: &[i32],
        output: &mut [i32],
        trigger: bool,
        stop_time_us: u64,
        start_time_us: u64,
        curve_type: TapeCurve,
        use_sync: bool,
        sync_beat: SyncBeat,
        bpm_milli: u64,
        enable_filter: bool,
    )
        requires
            old(self).wf(),
        ensures
            final(self).wf(),
            ({
                let o = old(self)@;
                let f = final(self)@;
                let t = next_transport(
                    o,
                    trigger,
                    stop_micros(use_sync, sync_beat, bpm_milli as int, stop_time_us as int),
                    start_time_us as int,
                    curve_type,
                );
                let n = frame_channels(input@.len() as int, old(output)@.len() as int, o.buffers.len() as int);
                let coef = if enable_filter {
                    clamp_coefficient(table_coefficient(o.cutoff_table, t.speed))
                } else {
                    0
                };
                &&& f.phase == t.phase
                &&& f.gain == t.gain
                &&& f.speed == t.speed
                &&& 0 <= f.phase <= unit()
                &&& 0 <= f.gain <= unit()
                &&& 0 <= f.speed <= unit()
                &&& f.sample_rate == o.sample_rate
                &&& f.cutoff_table == o.cutoff_table
                &&& f.write_pos == (o.write_pos + 1) % 0x1_0000_0000
                &&& f.read_pos == (t.read_pos + t.speed) % 0x1_0000_0000_0000_0000
                &&& f.buffers.len() == o.buffers.len()
                &&& f.filters.len() == o.filters.len()
                &&& final(output)@.len() == old(output)@.len()
                &&& forall|c: int| 0 <= c < f.filters.len() ==>
                    #[trigger] f.filters[c].1 == if enable_filter { coef } else { o.filters[c].1 }
                &&& forall|c: int| 0 <= c < n ==>
                    #[trigger] f.buffers[c] == o.buffers[c].update(o.write_pos % (o.buffers[c].len() as int), input@[c])
                &&& forall|c: int| 0 <= c < n ==> {
                    let tape = interpolate(f.buffers[c], t.read_pos);
                    if enable_filter {
                        &&& #[trigger] f.filters[c].0 == one_pole_step(o.filters[c].0, coef, tape)
                        &&& final(output)@[c] == mix(f.filters[c].0, input@[c] as int, t.gain)
                    } else {
                        &&& f.filters[c].0 == o.filters[c].0
                        &&& final(output)@[c] == mix(tape, input@[c] as int, t.gain)
                    }
                }
                &&& forall|c: int| n <= c < f.buffers.len() ==>
                    #[trigger] f.buffers[c] == o.buffers[c] && f.filters[c].0 == o.filters[c].0
                &&& forall|c: int| n <= c < old(output)@.len() ==> #[trigger] final(output)@[c] == old(output)@[c]
            }),
    {
        let ghost o = self@;
        let stop_us = stop_time_micros(use_sync, sync_beat, bpm_milli, stop_time_us);
        self.advance_transport(trigger, stop_us, start_time_us, curve_type);
        let ghost t = self@;
        let ghost pre_filters = self.filters@;
        let coef: u64 = if enable_filter { self.coefficient_for(self.current_speed) } else { 0 };
        if enable_filter {
            self.retune_filters(coef);
        }
        let ghost mid_filters = self.filters@;
        let ghost pre_buffers = self.buffers@;

        let n0 = if input.len() < output.len() { input.len() } else { output.len() };
        let n = if n0 < self.buffers.len() { n0 } else { self.buffers.len() };
        assert(o.buffers.len() == self.buffers@.len());
        let mut c: usize = 0;
        while c < n
            invariant
                self.wf(),
                self.buffers@.len() == pre_buffers.len(),
                self.filters@.len() == mid_filters.len(),
                self.phase == t.phase,
                self.crossfade_gain == t.gain,
                self.current_speed == t.speed,
                self.read_pos == t.read_pos,
                self.write_pos == o.write_pos,
                self.sample_rate == o.sample_rate,
                self.cutoff_table@ == o.cutoff_table,
                n == frame_channels(input@.len() as int, old(output)@.len() as int, o.buffers.len() as int),
                n <= input@.len(),
                n <= output@.len(),
                n <= self.buffers@.len(),
                self.buffers@.len() == self.filters@.len(),
                output@.len() == old(output)@.len(),
                c <= n,
                forall|k: int| c <= k < self.buffers@.len() ==> #[trigger] self.buffers@[k] == pre_buffers[k],
                forall|k: int| c <= k < self.filters@.len() ==> #[trigger] self.filters@[k] == mid_filters[k],
                forall|k: int| c <= k < output@.len() ==> #[trigger] output@[k] == old(output)@[k],
                forall|k: int| 0 <= k < c ==> {
                    &&& #[trigger] self.buffers@[k]@ == pre_buffers[k]@.update(
                        o.write_pos % (pre_buffers[k]@.len() as int),
                        input@[k],
                    )
                    &&& self.filters@[k]@.1 == mid_filters[k]@.1
                    &&& if enable_filter {
                        &&& self.filters@[k]@.0 == one_pole_step(
                            mid_filters[k]@.0,
                            mid_filters[k]@.1,
                            interpolate(self.buffers@[k]@, t.read_pos),
                        )
                        &&& output@[k] == mix(self.filters@[k]@.0, input@[k] as int, t.gain)
                    } else {
                        &&& self.filters@[k]@.0 == mid_filters[k]@.0
                        &&& output@[k] == mix(interpolate(self.buffers@[k]@, t.read_pos), input@[k] as int, t.gain)
                    }
                },
            decreases n - c,
        {
            let x = input[c];
            self.buffers[c].write(self.write_pos, x);
            let mut tape = self.buffers[c].read(self.read_pos);
            if enable_filter {
                let mut fl = self.filters[c];
                tape = fl.process(tape);
                self.filters.set(c, fl);
            }
            let y = crossfade(tape, x, self.crossfade_gain);
            output.set(c, y);
            c = c + 1;
        }

        self.write_pos = self.write_pos.wrapping_add(1);
        self.read_pos = self.read_pos.wrapping_add(self.current_speed);
        proof {
            let f = self@;
            self.lemma_wf();
            assert(pre_filters.len() == o.filters.len());
            assert forall|k: int| 0 <= k < o.filters.len() implies #[trigger] pre_filters[k]@ == o.filters[k] by {}
            assert forall|k: int| 0 <= k < o.buffers.len() implies #[trigger] pre_buffers[k]@ == o.buffers[k] by {}
            assert forall|k: int| 0 <= k < f.buffers.len() implies #[trigger] self.buffers@[k]@ == f.buffers[k] by {}
            assert forall|k: int| 0 <= k < f.filters.len() implies #[trigger] self.filters@[k]@ == f.filters[k] by {}
            let coef_ = if enable_filter { clamp_coefficient(table_coefficient(o.cutoff_table, t.speed)) } else { 0 };
            assert forall|c: int| 0 <= c < f.filters.len() implies
                    #[trigger] f.filters[c].1 == if enable_filter { coef_ } else { o.filters[c].1 } by {
                if c < n {
                    assert(self.buffers@[c]@ == pre_buffers[c]@.update(
                        o.write_pos % (pre_buffers[c]@.len() as int),
                        input@[c],
                    ));
                }
                assert(self.filters@[c]@.1 == mid_filters[c]@.1);
                if !enable_filter {
                    assert(mid_filters[c] == pre_filters[c]);
                }
            }
            assert forall|c: int| 0 <= c < n implies {
                let tape = interpolate(f.buffers[c], t.read_pos);
                if enable_filter {
                    &&& #[trigger] f.filters[c].0 == one_pole_step(o.filters[c].0, coef_, tape)
                    &&& output@[c] == mix(f.filters[c].0, input@[c] as int, t.gain)
                } else {
                    &&& f.filters[c].0 == o.filters[c].0
                    &&& output@[c] == mix(tape, input@[c] as int, t.gain)
                }
            } by {
                assert(self.buffers@[c]@ == pre_buffers[c]@.update(
                    o.write_pos % (pre_buffers[c]@.len() as int),
                    input@[c],
                ));
                if !enable_filter {
                    assert(mid_filters[c] == pre_filters[c]);
                }
            }
        }
    }

    /// Number of channels.
    pub fn channels(&self) -> (r: usize)
        ensures
            r == self@.buffers.len(),
    {
        self.buffers.len()
    }

    /// Playback phase in Q32: one at full speed, zero stopped.
    pub fn phase(&self) -> (r: u64)
        ensures
            r == self@.phase,
    {
        self.phase
    }

    /// Playback speed in Q32, the curve applied to the phase.
    pub fn current_speed(&self) -> (r: u64)
        ensures
            r == self@.speed,
    {
        self.current_speed
    }

    /// Crossfade gain in Q32: zero is the tape signal alone, one the live signal.
    pub fn crossfade_gain(&self) -> (r: u64)
        ensures
            r == self@.gain,
    {
        self.crossfade_gain
    }

    /// Frame counter of the write head.
    pub fn write_position(&self) -> (r: u32)
        ensures
            r == self@.write_pos,
    {
        self.write_pos
    }

    /// Read head in Q32.32 frames.
    pub fn read_position(&self) -> (r: u64)
        ensures
            r == self@.read_pos,
    {
        self.read_pos
    }

    /// What a well-formed engine guarantees of its view.
    pub proof fn lemma_wf(&self)
        requires
            self.wf(),
        ensures
            self@.buffers.len() == self@.filters.len(),
            0 <= self@.phase <= unit(),
            0 <= self@.speed <= unit(),
            0 <= self@.gain <= unit(),
            self@.sample_rate > 0,
            forall|i: int| 0 <= i < self@.filters.len() ==> 0 <= #[trigger] self@.filters[i].1 <= unit(),
    {
        assert forall|i: int| 0 <= i < self@.filters.len() implies 0 <= #[trigger] self@.filters[i].1 <= unit() by {
            assert(self.filters@[i].wf());
        }
    }
}

} // verus!
