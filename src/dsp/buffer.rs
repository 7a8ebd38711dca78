//! A circular sample buffer with cubic Hermite readback at fractional positions.
use vstd::prelude::*;
use vstd::arithmetic::power2::{pow2, lemma_pow2_pos, lemma_pow2_unfold, lemma_pow2_adds};
use vstd::bits::{low_bits_mask, lemma_u32_low_bits_mask_is_mod};
use crate::fixed::{saturate, saturate_i128, floor_div};

verus! {

/// Frames are addressed modulo 2^32; a position carries 32 fractional bits
/// above that, of which the top 16 steer the interpolation.
pub open spec fn frame_span() -> int {
    0x1_0000_0000
}

/// Resolution of the interpolation fraction.
pub open spec fn frac_span() -> int {
    0x1_0000
}

/// The sample at frame `i`, with `i` taken modulo the buffer length.
pub open spec fn tap(data: Seq<i32>, i: int) -> int {
    data[i % (data.len() as int)] as int
}

/// Four-point cubic Hermite interpolation between `s1` and `s2` at
/// fraction `f / frac_span()`, rounded down:
/// with `c0 = s1`, `c1 = (s2 - s0) / 2`, `c2 = s0 - 5 s1 / 2 + 2 s2 - s3 / 2`,
/// `c3 = (s3 - s0) / 2 + 3 (s1 - s2) / 2`, the value `((c3 f + c2) f + c1) f + c0`.
pub open spec fn hermite(s0: int, s1: int, s2: int, s3: int, f: int) -> int {
    let d = frac_span();
    let a0 = 2 * s1;
    let a1 = s2 - s0;
    let a2 = 2 * s0 - 5 * s1 + 4 * s2 - s3;
    let a3 = s3 - s0 + 3 * (s1 - s2);
    (((a3 * f + a2 * d) * f + a1 * d * d) * f + a0 * d * d * d) / (2 * d * d * d)
}

/// The value read at fixed-point position `pos` (frames in the high 32 bits,
/// the fraction in the low 32).
pub open spec fn interpolate(data: Seq<i32>, pos: int) -> int {
    let i = pos / frame_span();
    let f = (pos % frame_span()) / frac_span();
    saturate(hermite(tap(data, i - 1), tap(data, i), tap(data, i + 1), tap(data, i + 2), f))
}

/// `len` is a power of two no larger than 2^31.
pub open spec fn is_frame_capacity(len: int) -> bool {
    exists|k: nat| k <= 31 && #[trigger] pow2(k) == len
}

/// `len` is the least power of two that is at least `n` (1 for 0).
pub open spec fn is_capacity_for(len: int, n: int) -> bool {
    &&& is_frame_capacity(len)
    &&& len >= n
    &&& (len == 1 || len / 2 < n)
}

/// A read at a whole frame returns the stored sample unchanged.
pub proof fn lemma_read_exact_at_frames(data: Seq<i32>, i: int)
    requires
        data.len() > 0,
        0 <= i < frame_span(),
    ensures
        interpolate(data, i * frame_span()) == tap(data, i),
{
    let d = frac_span();
    let pos = i * frame_span();
    vstd::arithmetic::div_mod::lemma_fundamental_div_mod_converse(pos, frame_span(), i, 0);
    let s1 = tap(data, i);
    assert(s1 >= i32::MIN && s1 <= i32::MAX);
    assert((2 * s1 * d * d * d) / (2 * d * d * d) == s1) by (nonlinear_arith)
        requires
            d == 0x1_0000,
    ;
}

/// For a buffer of at least four frames that holds a single impulse of height
/// `one` at frame 0: reading at frame 0 gives `one`, and reading half a frame
/// later gives nine sixteenths of it (rounded down).
pub proof fn lemma_impulse_readback(data: Seq<i32>, one: i32)
    requires
        data.len() >= 4,
        data[0] == one,
        forall|j: int| 1 <= j < data.len() ==> data[j] == 0,
    ensures
        interpolate(data, 0) == one,
        interpolate(data, 0x8000_0000) == (9 * one) / 16,
{
    let n = data.len() as int;
    let d = frac_span();
    lemma_read_exact_at_frames(data, 0);
    assert(0int % n == 0) by {
        vstd::arithmetic::div_mod::lemma_small_mod(0, n as nat);
    }
    assert((-1int) % n == n - 1) by {
        vstd::arithmetic::div_mod::lemma_fundamental_div_mod_converse(-1, n, -1, n - 1);
    }
    assert(1int % n == 1) by {
        vstd::arithmetic::div_mod::lemma_small_mod(1, n as nat);
    }
    assert(2int % n == 2) by {
        vstd::arithmetic::div_mod::lemma_small_mod(2, n as nat);
    }
    vstd::arithmetic::div_mod::lemma_fundamental_div_mod_converse(0x8000_0000, frame_span(), 0, 0x8000_0000);
    assert(tap(data, -1) == 0 && tap(data, 0) == one && tap(data, 1) == 0 && tap(data, 2) == 0);
    let o = one as int;
    assert(hermite(0, o, 0, 0, 0x8000) == (9 * o) / 16) by (nonlinear_arith)
        requires
            d == 0x1_0000,
            hermite(0, o, 0, 0, 0x8000) == ((((3 * o) * 0x8000 + (-5 * o) * d) * 0x8000 + 0 * d * d)
                * 0x8000 + (2 * o) * d * d * d) / (2 * d * d * d),
    {
        assert((((3 * o) * 0x8000 + (-5 * o) * d) * 0x8000 + 0 * d * d) * 0x8000 + (2 * o) * d * d * d
            == (9 * o) * 0x2000_0000_0000);
        assert(2 * d * d * d == 16 * 0x2000_0000_0000);
        let k = 0x2000_0000_0000int;
        let q = (9 * o) / 16;
        let r = (9 * o) % 16;
        vstd::arithmetic::div_mod::lemma_fundamental_div_mod(9 * o, 16);
        assert((9 * o) * k == q * (16 * k) + r * k && 0 <= r * k < 16 * k) by (nonlinear_arith)
            requires
                9 * o == 16 * q + r,
                0 <= r < 16,
                k > 0,
        ;
        vstd::arithmetic::div_mod::lemma_fundamental_div_mod_converse((9 * o) * k, 16 * k, q, r * k);
    }
    assert(i32::MIN <= (9 * o) / 16 <= i32::MAX);
}

pub struct DelayLine {
    data: Vec<i32>,
    mask: u32,
    bits: Ghost<nat>,
}

impl View for DelayLine {
    type V = Seq<i32>;

    closed spec fn view(&self) -> Seq<i32> {
        self.data@
    }
}

impl DelayLine {
    /// The length is a power of two of at most 2^31, and `mask` is that length less one.
    pub closed spec fn wf(&self) -> bool {
        &&& self.bits@ <= 31
        &&& self.data@.len() == pow2(self.bits@)
        &&& self.mask == low_bits_mask(self.bits@)
    }

    /// The length is a power of two between 1 and 2^31, so it divides the
    /// 2^32 frames that positions count.
    pub proof fn lemma_len(&self)
        requires
            self.wf(),
        ensures
            is_frame_capacity(self@.len() as int),
            1 <= self@.len() <= 0x8000_0000,
            frame_span() % (self@.len() as int) == 0,
    {
        lemma_pow2_pos(self.bits@);
        if self.bits@ < 31 {
            vstd::arithmetic::power2::lemma_pow2_strictly_increases(self.bits@, 31);
        }
        assert(pow2(31) == 0x8000_0000) by {
            vstd::arithmetic::power2::lemma2_to64();
        }
        assert(pow2(32) == 0x1_0000_0000) by {
            vstd::arithmetic::power2::lemma2_to64();
        }
        let k = (32 - self.bits@) as nat;
        lemma_pow2_adds(self.bits@, k);
        lemma_pow2_pos(k);
        vstd::arithmetic::div_mod::lemma_mod_multiples_basic(pow2(k) as int, pow2(self.bits@) as int);
        assert(pow2(self.bits@) * pow2(k) == pow2(k) * pow2(self.bits@)) by (nonlinear_arith);
        assert(self.bits@ <= 31 && pow2(self.bits@) == self@.len());
    }

    /// A silent buffer whose length is the least power of two that holds
    /// `max_frames` samples.
    pub fn new(max_frames: usize) -> (r: DelayLine)
        requires
            max_frames <= 0x8000_0000,
        ensures
            r.wf(),
            is_capacity_for(r@.len() as int, max_frames as int),
            forall|j: int| 0 <= j < r@.len() ==> r@[j] == 0,
    {
        let mut len: usize = 1;
        let ghost mut bits: nat = 0;
        proof {
            vstd::arithmetic::power2::lemma2_to64();
        }
        while len < max_frames
            invariant
                len == pow2(bits),
                bits <= 31,
                max_frames <= 0x8000_0000,
                len == 1 || len / 2 < max_frames,
                pow2(31) == 0x8000_0000,
            decreases 31 - bits,
        {
            proof {
                lemma_pow2_unfold(bits + 1);
                if bits + 1 < 31 {
                    vstd::arithmetic::power2::lemma_pow2_strictly_increases(bits + 1, 31);
                }
            }
            len = len * 2;
            proof {
                bits = bits + 1;
            }
        }
        let mut data: Vec<i32> = Vec::new();
        while data.len() < len
            invariant
                data.len() <= len,
                forall|j: int| 0 <= j < data@.len() ==> data@[j] == 0,
            decreases len - data.len(),
        {
            data.push(0);
        }
        let mask: u32 = (len - 1) as u32;
        let r = DelayLine { data, mask, bits: Ghost(bits) };
        assert(is_capacity_for(r@.len() as int, max_frames as int)) by {
            assert(bits <= 31 && pow2(bits) == len);
        }
        r
    }

    /// Fills the buffer with silence; its length is kept.
    pub fn reset(&mut self)
        requires
            old(self).wf(),
        ensures
            final(self).wf(),
            final(self)@.len() == old(self)@.len(),
            forall|j: int| 0 <= j < final(self)@.len() ==> final(self)@[j] == 0,
    {
        let n = self.data.len();
        let mut j: usize = 0;
        while j < n
            invariant
                self.wf(),
                self.bits == old(self).bits,
                self.mask == old(self).mask,
                n == self.data.len(),
                n == old(self)@.len(),
                j <= n,
                forall|t: int| 0 <= t < j ==> self.data@[t] == 0,
            decreases n - j,
        {
            self.data.set(j, 0);
            j = j + 1;
        }
    }

    /// Number of frames held.
    pub fn len(&self) -> (r: usize)
        ensures
            r == self@.len(),
    {
        self.data.len()
    }

    /// The slot of frame `index`: `index` modulo the length.
    fn slot(&self, index: u32) -> (r: usize)
        requires
            self.wf(),
        ensures
            r == index as int % (self@.len() as int),
            r < self@.len(),
    {
        proof {
            lemma_pow2_pos(self.bits@);
            lemma_u32_low_bits_mask_is_mod(index, self.bits@);
            self.lemma_len();
        }
        (index & self.mask) as usize
    }

    /// Stores `value` at frame `index` (modulo the length).
    pub fn write(&mut self, index: u32, value: i32)
        requires
            old(self).wf(),
        ensures
            final(self).wf(),
            final(self)@ == old(self)@.update(index as int % (old(self)@.len() as int), value),
    {
        let s = self.slot(index);
        self.data.set(s, value);
    }

    /// The sample at frame `i - 1 + k`, for a frame number `i` taken modulo 2^32.
    fn tap_at(&self, i: u32, k: u32) -> (r: i32)
        requires
            self.wf(),
            k <= 3,
        ensures
            r == tap(self@, i as int - 1 + k as int),
    {
        let idx: u32 = if k == 0 {
            i.wrapping_sub(1)
        } else {
            i.wrapping_add(k - 1)
        };
        proof {
            self.lemma_len();
            let n = self@.len() as int;
            let x = i as int - 1 + k as int;
            let q = frame_span() / n;
            vstd::arithmetic::div_mod::lemma_fundamental_div_mod(frame_span(), n);
            assert(frame_span() == n * q);
            if x < 0 {
                assert(idx == x + frame_span());
                vstd::arithmetic::div_mod::lemma_mod_multiples_vanish(q, x, n);
            } else if x >= frame_span() {
                assert(idx == x - frame_span());
                vstd::arithmetic::div_mod::lemma_mod_multiples_vanish(q, x - frame_span(), n);
            } else {
                assert(idx == x);
            }
        }
        self.data[self.slot(idx)]
    }

    /// The value at fixed-point position `position`, by four-point cubic Hermite
    /// interpolation around it; exact at whole frames.
    pub fn read(&self, position: u64) -> (r: i32)
        requires
            self.wf(),
        ensures
            r == interpolate(self@, position as int),
    {
        let i: u32 = (position / 0x1_0000_0000) as u32;
        let f: i128 = ((position % 0x1_0000_0000) / 0x1_0000) as i128;
        let s0: i128 = self.tap_at(i, 0) as i128;
        let s1: i128 = self.tap_at(i, 1) as i128;
        let s2: i128 = self.tap_at(i, 2) as i128;
        let s3: i128 = self.tap_at(i, 3) as i128;
        let d: i128 = 0x1_0000;
        let a0: i128 = 2 * s1;
        let a1: i128 = s2 - s0;
        let a2: i128 = 2 * s0 - 5 * s1 + 4 * s2 - s3;
        let a3: i128 = s3 - s0 + 3 * (s1 - s2);
        assert(-0x4_0000_0000 <= a3 <= 0x4_0000_0000);
        assert(-0x8_0000_0000 <= a2 <= 0x8_0000_0000);
        assert(0 <= f < 0x1_0000);
        assert(-0x4_0000_0000_0000 <= a3 * f <= 0x4_0000_0000_0000) by (nonlinear_arith)
            requires
                -0x4_0000_0000 <= a3 <= 0x4_0000_0000,
                0 <= f < 0x1_0000,
        ;
        let t1: i128 = a3 * f + a2 * d;
        assert(-0x20_0000_0000_0000 <= t1 <= 0x20_0000_0000_0000) by (nonlinear_arith)
            requires
                t1 == a3 * f + a2 * d,
                -0x4_0000_0000 <= a3 <= 0x4_0000_0000,
                -0x8_0000_0000 <= a2 <= 0x8_0000_0000,
                0 <= f < 0x1_0000,
                d == 0x1_0000,
        ;
        assert(-0x20_0000_0000_0000_0000 <= t1 * f <= 0x20_0000_0000_0000_0000) by (nonlinear_arith)
            requires
                -0x20_0000_0000_0000 <= t1 <= 0x20_0000_0000_0000,
                0 <= f < 0x1_0000,
        ;
        let t2: i128 = t1 * f + a1 * d * d;
        assert(-0x40_0000_0000_0000_0000 <= t2 <= 0x40_0000_0000_0000_0000) by (nonlinear_arith)
            requires
                t2 == t1 * f + a1 * d * d,
                -0x20_0000_0000_0000 <= t1 <= 0x20_0000_0000_0000,
                -0x1_0000_0000 <= a1 <= 0x1_0000_0000,
                0 <= f < 0x1_0000,
                d == 0x1_0000,
        ;
        assert(-0x40_0000_0000_0000_0000_0000 <= t2 * f <= 0x40_0000_0000_0000_0000_0000) by (nonlinear_arith)
            requires
                -0x40_0000_0000_0000_0000 <= t2 <= 0x40_0000_0000_0000_0000,
                0 <= f < 0x1_0000,
        ;
        let t3: i128 = t2 * f + a0 * d * d * d;
        assert(-0x80_0000_0000_0000_0000_0000 <= t3 <= 0x80_0000_0000_0000_0000_0000) by (nonlinear_arith)
            requires
                t3 == t2 * f + a0 * d * d * d,
                -0x40_0000_0000_0000_0000 <= t2 <= 0x40_0000_0000_0000_0000,
                -0x1_0000_0000 <= a0 <= 0x1_0000_0000,
                0 <= f < 0x1_0000,
                d == 0x1_0000,
        ;
        let v: i128 = floor_div(t3, 2 * d * d * d);
        saturate_i128(v)
    }
}

} // verus!
