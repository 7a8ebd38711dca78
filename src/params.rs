//! The discrete parameter selectors: speed curves and tempo divisions.
use vstd::prelude::*;
use crate::fixed::{UNIT, unit};

verus! {

/// The shape with which playback speed follows the phase.
#[derive(PartialEq, Eq, Structural, Clone, Copy, Debug)]
pub enum TapeCurve {
    /// `f(t) = t`
    Linear,
    /// smoothstep, `f(t) = t^2 (3 - 2t)`
    Smooth,
    /// ease-out, `f(t) = 1 - (1 - t)^2`
    SlowStart,
    /// ease-in, `f(t) = t^3`
    QuickCut,
}

/// The note or bar length that a tempo-synced stop lasts.
#[derive(PartialEq, Eq, Structural, Clone, Copy, Debug)]
pub enum SyncBeat {
    Eight,
    Quarter,
    Half,
    OneBar,
    TwoBars,
}

/// The curve on a phase `t` in Q32, rounded down.
pub open spec fn curve_value(curve: TapeCurve, t: int) -> int {
    let u = unit();
    match curve {
        TapeCurve::Linear => t,
        TapeCurve::Smooth => (t * t * (3 * u - 2 * t)) / (u * u),
        TapeCurve::SlowStart => u - ((u - t) * (u - t)) / u,
        TapeCurve::QuickCut => (t * t * t) / (u * u),
    }
}

/// Length of a beat division counted in half beats.
pub open spec fn half_beats(beat: SyncBeat) -> int {
    match beat {
        SyncBeat::Eight => 1,
        SyncBeat::Quarter => 2,
        SyncBeat::Half => 4,
        SyncBeat::OneBar => 8,
        SyncBeat::TwoBars => 16,
    }
}

proof fn lemma_curve_range(curve: TapeCurve, t: int)
    requires
        0 <= t <= unit(),
    ensures
        0 <= curve_value(curve, t) <= unit(),
{
    let u = unit();
    match curve {
        TapeCurve::Linear => {},
        TapeCurve::Smooth => {
            assert(0 <= t * t * (3 * u - 2 * t) <= u * u * u) by (nonlinear_arith)
                requires
                    0 <= t <= u,
            {
                // t^2 (3u - 2t) <= u^3  <=>  (u - t)^2 (u + 2t) >= 0
                assert(u * u * u - t * t * (3 * u - 2 * t) == (u - t) * (u - t) * (u + 2 * t));
            }
            lemma_div_range(t * t * (3 * u - 2 * t), u * u, u);
        },
        TapeCurve::SlowStart => {
            assert(0 <= (u - t) * (u - t) <= u * u) by (nonlinear_arith)
                requires
                    0 <= t <= u,
            ;
            lemma_div_range((u - t) * (u - t), u, u);
        },
        TapeCurve::QuickCut => {
            assert(0 <= t * t * t <= u * u * u) by (nonlinear_arith)
                requires
                    0 <= t <= u,
            ;
            lemma_div_range(t * t * t, u * u, u);
        },
    }
}

proof fn lemma_div_range(a: int, d: int, m: int)
    requires
        d > 0,
        0 <= a <= d * m,
    ensures
        0 <= a / d <= m,
{
    assert(0 <= a / d <= m) by (nonlinear_arith)
        requires
            d > 0,
            0 <= a <= d * m,
    ;
}

/// Every curve starts at rest and ends at full speed.
pub proof fn lemma_curve_endpoints(curve: TapeCurve)
    ensures
        curve_value(curve, 0) == 0,
        curve_value(curve, unit()) == unit(),
{
    let u = unit();
    assert(u * u * u / (u * u) == u) by (nonlinear_arith)
        requires
            u > 0,
    ;
    assert((u * u) / u == u) by (nonlinear_arith)
        requires
            u > 0,
    ;
    assert(u * u * (3 * u - 2 * u) == u * u * u) by (nonlinear_arith);
    assert(0int * 0 * (3 * u - 0) == 0 && 0int * 0 * 0 == 0) by (nonlinear_arith);
    assert((u - 0) * (u - 0) == u * u);
    assert((u - u) * (u - u) == 0) by (nonlinear_arith);
}

/// Playback speed for phase `t`, following the selected curve.
pub fn curve_speed(curve: TapeCurve, t: u64) -> (r: u64)
    requires
        t <= UNIT,
    ensures
        r == curve_value(curve, t as int),
        r <= UNIT,
{
    proof {
        lemma_curve_range(curve, t as int);
    }
    let u: u128 = UNIT as u128;
    let w: u128 = t as u128;
    assert(w * w <= u * u && w * w * w <= u * u * u && u * u * u == 0x1_0000_0000_0000_0000_0000_0000)
        by (nonlinear_arith)
        requires
            w <= u,
            u == 0x1_0000_0000,
    ;
    match curve {
        TapeCurve::Linear => t,
        TapeCurve::Smooth => {
            assert(w * w * (3 * u - 2 * w) <= u * u * u) by (nonlinear_arith)
                requires
                    w <= u,
            {
                assert(u * u * u - w * w * (3 * u - 2 * w) == (u - w) * (u - w) * (u + 2 * w));
            }
            ((w * w * (3 * u - 2 * w)) / (u * u)) as u64
        },
        TapeCurve::SlowStart => {
            assert((u - w) * (u - w) <= u * u) by (nonlinear_arith)
                requires
                    w <= u,
            ;
            (u - ((u - w) * (u - w)) / u) as u64
        },
        TapeCurve::QuickCut => {
            assert(w * w * w <= u * u * u) by (nonlinear_arith)
                requires
                    w <= u,
            ;
            ((w * w * w) / (u * u)) as u64
        },
    }
}

} // verus!
